//! Numeric display formatting.

use vstd::prelude::*;
use vstd::string::*;

use crate::model::{NumberFormat, UsdAmount};
use crate::text;
use crate::text::{chars_of, decimal_text, push_decimal, string_of};

verus! {

/// A run of digits with a comma before every group of three counted from the right.
pub open spec fn grouped(digits: Seq<char>) -> Seq<char>
    decreases digits.len(),
{
    if digits.len() <= 3 {
        digits
    } else {
        grouped(digits.take(digits.len() - 3)).push(',') + digits.skip(digits.len() - 3)
    }
}

/// The last three digits of a number of at least four digits stand behind those of its thousands.
proof fn lemma_decimal_thousands(n: nat)
    requires
        n >= 1000,
    ensures
        decimal_len_at_least_four(n),
        text::decimal(n) == text::decimal(n / 1000) + three_digits((n % 1000) as nat),
{
    let a = n / 10;
    let b = a / 10;
    lemma_last_three_digits(n);
    assert(text::decimal(n) == text::decimal(a).push(text::digit_char((n % 10) as int)));
    assert(text::decimal(a) == text::decimal(b).push(text::digit_char((a % 10) as int)));
    assert(text::decimal(b) == text::decimal(b / 10).push(text::digit_char((b % 10) as int)));
    assert(text::decimal(n / 1000).len() > 0);
    assert(text::decimal(n) =~= text::decimal(n / 1000) + three_digits((n % 1000) as nat));
}

proof fn lemma_last_three_digits(n: nat)
    ensures
        n / 10 / 10 / 10 == n / 1000,
        (n % 1000) / 100 == n / 10 / 10 % 10,
        (n % 1000) / 10 % 10 == n / 10 % 10,
        (n % 1000) % 10 == n % 10,
{
}

spec fn decimal_len_at_least_four(n: nat) -> bool {
    text::decimal(n).len() >= 4
}

spec fn three_digits(n: nat) -> Seq<char> {
    seq![
        text::digit_char((n / 100) as int),
        text::digit_char((n / 10 % 10) as int),
        text::digit_char((n % 10) as int),
    ]
}

proof fn lemma_short_decimal(n: nat)
    requires
        n < 1000,
    ensures
        text::decimal(n).len() <= 3,
{
    reveal_with_fuel(text::decimal, 4);
}

fn push_grouped(out: &mut String, n: u64)
    ensures
        final(out)@ == old(out)@ + grouped(text::decimal(n as nat)),
    decreases n,
{
    if n >= 1000 {
        push_grouped(out, n / 1000);
        out.push(',');
        let rest: u64 = n % 1000;
        push_decimal(out, (rest / 100) as u128);
        push_decimal(out, (rest / 10 % 10) as u128);
        push_decimal(out, (rest % 10) as u128);
        proof {
            lemma_decimal_thousands(n as nat);
            let digits = text::decimal(n as nat);
            assert(digits.take(digits.len() - 3) == text::decimal((n / 1000) as nat));
            assert(digits.skip(digits.len() - 3) == three_digits(rest as nat));
            assert(out@ == old(out)@ + grouped(digits));
        }
    } else {
        push_decimal(out, n as u128);
        proof {
            lemma_short_decimal(n as nat);
        }
    }
}

/// Format an integer with thousands separators.
pub fn format_u64(value: u64) -> (s: String)
    ensures
        s@ == grouped(text::decimal(value as nat)),
{
    let mut s = String::new();
    push_grouped(&mut s, value);
    assert(s@ == grouped(text::decimal(value as nat)));
    s
}

/// Powers of ten.
pub open spec fn pow10(exponent: nat) -> nat
    decreases exponent,
{
    if exponent == 0 {
        1
    } else {
        10 * pow10((exponent - 1) as nat)
    }
}

proof fn lemma_pow10_bound(exponent: nat)
    requires
        exponent <= 38,
    ensures
        1 <= pow10(exponent) <= 100_000_000_000_000_000_000_000_000_000_000_000_000,
{
    reveal_with_fuel(pow10, 40);
}

fn power_of_ten(exponent: u32) -> (p: u128)
    requires
        exponent <= 38,
    ensures
        p == pow10(exponent as nat),
        p >= 1,
{
    let mut p: u128 = 1;
    let mut i: u32 = 0;
    while i < exponent
        invariant
            i <= exponent <= 38,
            p == pow10(i as nat),
            p >= 1,
        decreases exponent - i,
    {
        proof {
            lemma_pow10_bound((i + 1) as nat);
        }
        p = 10 * p;
        i += 1;
    }
    p
}

/// The decimal notation of a number, filled up with leading zeros to a width.
pub open spec fn zero_padded(n: nat, width: nat) -> Seq<char> {
    let digits = text::decimal(n);
    Seq::new((width - digits.len()) as nat, |i: int| '0') + digits
}

/// The text without trailing zeros.
pub open spec fn without_zeros(s: Seq<char>) -> Seq<char>
    decreases s.len(),
{
    if s.len() > 0 && s.last() == '0' {
        without_zeros(s.drop_last())
    } else {
        s
    }
}

/// The text without one trailing decimal point.
pub open spec fn without_point(s: Seq<char>) -> Seq<char> {
    if s.len() > 0 && s.last() == '.' {
        s.drop_last()
    } else {
        s
    }
}

/// A number given in units of `10^-decimals`, in decimal notation without redundant zeros.
pub open spec fn fixed_text(value: nat, decimals: nat) -> Seq<char> {
    if decimals == 0 {
        text::decimal(value)
    } else {
        without_point(
            without_zeros(
                text::decimal(value / pow10(decimals)).push('.') + zero_padded(
                    value % pow10(decimals),
                    decimals,
                ),
            ),
        )
    }
}

proof fn lemma_decimal_length(n: nat, width: nat)
    requires
        n < pow10(width),
        width >= 1,
    ensures
        text::decimal(n).len() <= width,
    decreases width,
{
    if n >= 10 {
        assert(width > 1) by {
            reveal_with_fuel(pow10, 2);
        }
        assert(n / 10 < pow10((width - 1) as nat));
        lemma_decimal_length(n / 10, (width - 1) as nat);
    }
}

/// Format a rounded abbreviated value and trim redundant trailing zeros.
pub fn format_short_with_suffix(value: u128, decimals: u32, suffix: &str) -> (s: String)
    requires
        decimals <= 38,
    ensures
        s@ == fixed_text(value as nat, decimals as nat) + suffix@,
{
    let mut number = String::new();
    if decimals == 0 {
        push_decimal(&mut number, value);
        assert(number@ == text::decimal(value as nat));
        number.append(suffix);
        return number;
    }
    let divisor: u128 = power_of_ten(decimals);
    push_decimal(&mut number, value / divisor);
    number.push('.');
    let mut fraction = String::new();
    push_decimal(&mut fraction, value % divisor);
    assert(fraction@ == text::decimal((value % divisor) as nat));
    proof {
        lemma_decimal_length((value % divisor) as nat, decimals as nat);
    }
    let width: usize = fraction.as_str().unicode_len();
    let mut fill: usize = decimals as usize - width;
    let ghost zeros = fill;
    let ghost head = number@;
    assert(number@ == head + Seq::new(0, |i: int| '0'));
    while fill > 0
        invariant
            fill <= zeros,
            number@ == head + Seq::new((zeros - fill) as nat, |i: int| '0'),
        decreases fill,
    {
        number.push('0');
        fill -= 1;
        assert(number@ == head + Seq::new((zeros - fill) as nat, |i: int| '0'));
    }
    number.append(fraction.as_str());
    let ghost full = text::decimal((value / divisor) as nat).push('.') + zero_padded(
        (value % divisor) as nat,
        decimals as nat,
    );
    assert(number@ == full);
    let chars = chars_of(number.as_str());
    let mut end: usize = chars.len();
    assert(full.take(end as int) == full);
    while end > 0 && chars[end - 1] == '0'
        invariant
            end <= chars.len(),
            chars@ == full,
            without_zeros(full) == without_zeros(full.take(end as int)),
        decreases end,
    {
        assert(full.take(end as int).drop_last() == full.take(end - 1));
        end -= 1;
    }
    assert(without_zeros(full) == full.take(end as int));
    if end > 0 && chars[end - 1] == '.' {
        assert(full.take(end as int).drop_last() == full.take(end - 1));
        end -= 1;
    }
    let mut s = string_of(&chars, 0, end);
    assert(s@ == fixed_text(value as nat, decimals as nat));
    s.append(suffix);
    s
}

/// How many tokens one abbreviation unit stands for.
pub open spec fn unit_divisor(unit: int) -> nat {
    if unit <= 0 {
        1_000
    } else if unit == 1 {
        1_000_000
    } else if unit == 2 {
        1_000_000_000
    } else {
        1_000_000_000_000
    }
}

/// The suffix of an abbreviation unit.
pub open spec fn unit_suffix(unit: int) -> Seq<char> {
    if unit <= 0 {
        "K"@
    } else if unit == 1 {
        "M"@
    } else if unit == 2 {
        "B"@
    } else {
        "T"@
    }
}

/// The largest unit that the value reaches.
pub open spec fn reached_unit(value: nat) -> int {
    if value >= unit_divisor(3) {
        3
    } else if value >= unit_divisor(2) {
        2
    } else if value >= unit_divisor(1) {
        1
    } else {
        0
    }
}

/// How many decimals three significant digits leave for the value in a unit.
pub open spec fn shown_decimals(value: nat, unit: int) -> nat {
    let whole = value / unit_divisor(unit);
    if whole >= 100 {
        0
    } else if whole >= 10 {
        1
    } else {
        2
    }
}

/// The value in a unit, rounded half up to the decimals shown.
pub open spec fn rounded_units(value: nat, unit: int) -> nat {
    (value * pow10(shown_decimals(value, unit)) + unit_divisor(unit) / 2) / unit_divisor(unit)
}

/// The unit in which the value is shown: the largest that it reaches, or the next one where
/// rounding carries the value to a thousand.
pub open spec fn shown_unit(value: nat) -> int {
    let unit = reached_unit(value);
    if unit < 3 && rounded_units(value, unit) >= 1000 * pow10(shown_decimals(value, unit)) {
        unit + 1
    } else {
        unit
    }
}

/// A count abbreviated to three significant digits.
pub open spec fn short_text(value: nat) -> Seq<char> {
    if value < 1000 {
        text::decimal(value)
    } else {
        let unit = shown_unit(value);
        fixed_text(rounded_units(value, unit), shown_decimals(value, unit)) + unit_suffix(unit)
    }
}

fn divisor_of(unit: usize) -> (d: u64)
    ensures
        d == unit_divisor(unit as int),
{
    if unit == 0 {
        1_000
    } else if unit == 1 {
        1_000_000
    } else if unit == 2 {
        1_000_000_000
    } else {
        1_000_000_000_000
    }
}

fn suffix_of(unit: usize) -> (s: &'static str)
    ensures
        s@ == unit_suffix(unit as int),
{
    if unit == 0 {
        "K"
    } else if unit == 1 {
        "M"
    } else if unit == 2 {
        "B"
    } else {
        "T"
    }
}

/// Round a value to the decimals that its unit shows.
fn round_in_unit(value: u64, unit: usize) -> (r: (u128, u32))
    ensures
        r.0 == rounded_units(value as nat, unit as int),
        r.1 == shown_decimals(value as nat, unit as int),
        r.1 <= 2,
{
    let divisor: u64 = divisor_of(unit);
    let whole: u64 = value / divisor;
    let decimals: u32 = if whole >= 100 {
        0
    } else if whole >= 10 {
        1
    } else {
        2
    };
    proof {
        reveal_with_fuel(pow10, 3);
    }
    let multiplier: u128 = power_of_ten(decimals);
    assert(multiplier <= 100);
    assert(value as u128 * multiplier <= 100 * u64::MAX) by (nonlinear_arith)
        requires
            multiplier <= 100,
            value <= u64::MAX,
    ;
    let rounded: u128 = (value as u128 * multiplier + divisor as u128 / 2) / divisor as u128;
    (rounded, decimals)
}

/// Format an integer using three significant digits and K/M/B/T suffixes.
pub fn format_u64_short(value: u64) -> (s: String)
    ensures
        s@ == short_text(value as nat),
{
    if value < 1000 {
        return decimal_text(value);
    }
    let reached: usize = if value >= 1_000_000_000_000 {
        3
    } else if value >= 1_000_000_000 {
        2
    } else if value >= 1_000_000 {
        1
    } else {
        0
    };
    let (rounded, decimals) = round_in_unit(value, reached);
    proof {
        reveal_with_fuel(pow10, 3);
    }
    if reached < 3 && rounded >= 1000 * power_of_ten(decimals) {
        let (carried, carried_decimals) = round_in_unit(value, reached + 1);
        format_short_with_suffix(carried, carried_decimals, suffix_of(reached + 1))
    } else {
        format_short_with_suffix(rounded, decimals, suffix_of(reached))
    }
}

/// The display text of a count.
pub open spec fn count_text(value: nat, number_format: NumberFormat) -> Seq<char> {
    match number_format {
        NumberFormat::Full => grouped(text::decimal(value)),
        NumberFormat::Short => short_text(value),
    }
}

/// Format an integer according to the selected display mode.
pub fn format_u64_with(value: u64, number_format: NumberFormat) -> (s: String)
    ensures
        s@ == count_text(value as nat, number_format),
{
    match number_format {
        NumberFormat::Full => format_u64(value),
        NumberFormat::Short => format_u64_short(value),
    }
}

/// The display text of a dollar amount: whole dollars, a point and two digits of cents.
pub open spec fn currency_text(amount: UsdAmount) -> Seq<char> {
    seq!['$'] + text::decimal((amount.cents / 100) as nat) + seq![
        '.',
        text::digit_char((amount.cents / 10 % 10) as int),
        text::digit_char((amount.cents % 10) as int),
    ]
}

/// Format USD with two decimal places.
pub fn format_currency(amount: UsdAmount) -> (s: String)
    ensures
        s@ == currency_text(amount),
{
    let mut s = String::new();
    s.push('$');
    push_decimal(&mut s, (amount.cents / 100) as u128);
    s.push('.');
    push_decimal(&mut s, (amount.cents / 10 % 10) as u128);
    push_decimal(&mut s, (amount.cents % 10) as u128);
    assert(s@ == currency_text(amount));
    s
}

/// The value that `digits_value` reads from a decimal notation is the number written.
pub proof fn lemma_decimal_value(n: nat)
    ensures
        text::decimal(n).len() > 0,
        text::all_digits(text::decimal(n)),
        text::digits_value(text::decimal(n)) == n,
    decreases n,
{
    if n >= 10 {
        lemma_decimal_value(n / 10);
        assert(text::decimal(n).drop_last() == text::decimal(n / 10));
    } else {
        assert(text::decimal(n).drop_last() == Seq::<char>::empty());
        assert(text::digits_value(Seq::<char>::empty()) == 0);
    }
}

/// Reading back the decimal notation of a counter gives the counter.
pub proof fn law_decimal_round_trip(n: u64)
    ensures
        text::u64_notation(text::decimal(n as nat)) == Some(n),
{
    lemma_decimal_value(n as nat);
    let digits = text::decimal(n as nat);
    assert(text::is_digit(digits[0]));
}

/// Separators only separate: without its commas the grouped text is the plain decimal notation.
pub proof fn law_grouping_keeps_digits(n: u64)
    ensures
        grouped(text::decimal(n as nat)).filter(|c: char| c != ',') == text::decimal(n as nat),
{
    lemma_decimal_value(n as nat);
    lemma_grouped_digits(text::decimal(n as nat));
}

proof fn lemma_filter_digits(digits: Seq<char>)
    requires
        text::all_digits(digits),
    ensures
        digits.filter(|c: char| c != ',') == digits,
    decreases digits.len(),
{
    reveal(Seq::filter);
    if digits.len() > 0 {
        let rest = digits.drop_last();
        assert forall|i: int| 0 <= i < rest.len() implies text::is_digit(#[trigger] rest[i]) by {
            assert(rest[i] == digits[i]);
        }
        lemma_filter_digits(rest);
        assert(text::is_digit(digits[digits.len() - 1]));
        assert(digits == rest.push(digits.last()));
    } else {
        assert(digits.filter(|c: char| c != ',') == digits);
    }
}

proof fn lemma_grouped_digits(digits: Seq<char>)
    requires
        text::all_digits(digits),
    ensures
        grouped(digits).filter(|c: char| c != ',') == digits,
    decreases digits.len(),
{
    if digits.len() <= 3 {
        lemma_filter_digits(digits);
    } else {
        let head = digits.take(digits.len() - 3);
        let tail = digits.skip(digits.len() - 3);
        assert forall|i: int| 0 <= i < head.len() implies text::is_digit(#[trigger] head[i]) by {
            assert(head[i] == digits[i]);
        }
        assert forall|i: int| 0 <= i < tail.len() implies text::is_digit(#[trigger] tail[i]) by {
            assert(tail[i] == digits[i + head.len()]);
        }
        lemma_grouped_digits(head);
        lemma_filter_digits(tail);
        let pred = |c: char| c != ',';
        Seq::filter_distributes_over_add(grouped(head).push(','), tail, pred);
        assert(grouped(head).push(',').filter(pred) == grouped(head).filter(pred)) by {
            reveal(Seq::filter);
            assert(grouped(head).push(',').drop_last() == grouped(head));
        }
        assert(head + tail == digits);
    }
}

/// An abbreviated count is rounded to the nearest step that its decimals can show.
pub proof fn law_short_rounds_to_nearest(value: u64)
    requires
        value >= 1000,
    ensures
        ({
            let unit = shown_unit(value as nat);
            let exact = value * pow10(shown_decimals(value as nat, unit));
            let shown = rounded_units(value as nat, unit) * unit_divisor(unit);
            2 * (shown - exact) <= unit_divisor(unit) && 2 * (exact - shown) <= unit_divisor(unit)
        }),
{
    let unit = shown_unit(value as nat);
    let d = unit_divisor(unit) as int;
    let exact = value * pow10(shown_decimals(value as nat, unit));
    let rounded = (exact + d / 2) / d;
    assert(d % 2 == 0);
    vstd::arithmetic::div_mod::lemma_fundamental_div_mod(exact + d / 2, d);
    vstd::arithmetic::div_mod::lemma_mod_bound(exact + d / 2, d);
    assert(d * rounded == rounded * d) by (nonlinear_arith);
}

/// An abbreviated count below a thousand trillions shows at most three significant digits: the
/// digits make up a number below a thousand, or exactly a thousand of which a decimal is zero.
pub proof fn law_short_shows_three_digits(value: u64)
    requires
        1000 <= value < 999_500_000_000_000,
    ensures
        ({
            let unit = shown_unit(value as nat);
            let shown = rounded_units(value as nat, unit);
            shown < 1000 || (shown == 1000 && shown_decimals(value as nat, unit) > 0)
        }),
{
    let v = value as nat;
    let unit = reached_unit(v);
    let d = unit_divisor(unit);
    assert(pow10(0) == 1 && pow10(1) == 10 && pow10(2) == 100) by {
        reveal_with_fuel(pow10, 3);
    }
    let whole = v / d;
    lemma_below_next_quotient(v, d);
    if whole < 10 {
        assert((whole + 1) * d <= 10 * d) by (nonlinear_arith)
            requires
                whole < 10,
        ;
    } else if whole < 100 {
        assert((whole + 1) * d <= 100 * d) by (nonlinear_arith)
            requires
                whole < 100,
        ;
    }
    if shown_unit(v) != unit {
        let wide = unit_divisor(unit + 1);
        assert(v < wide);
        assert(shown_decimals(v, unit + 1) == 2) by {
            lemma_quotient_below(v, wide, 1);
        }
        lemma_quotient_below(v * 100 + wide / 2, wide, 101);
    } else if whole < 10 {
        lemma_quotient_below(v * 100 + d / 2, d, 1001);
    } else if whole < 100 {
        lemma_quotient_below(v * 10 + d / 2, d, 1001);
    } else if unit == 3 {
        lemma_quotient_below(v * 1 + d / 2, d, 1000);
    }
}

/// The figure before the suffix stays below a thousand, unless the suffix is that of trillions: a
/// value that would round to a thousand is shown as one of the next unit.
pub proof fn law_short_figure_stays_below_a_thousand(value: u64)
    requires
        value >= 1000,
    ensures
        ({
            let unit = shown_unit(value as nat);
            unit < 3 ==> rounded_units(value as nat, unit) < 1000 * pow10(
                shown_decimals(value as nat, unit),
            )
        }),
{
    let v = value as nat;
    let unit = reached_unit(v);
    if shown_unit(v) != unit {
        let wide = unit_divisor(unit + 1);
        lemma_small_powers();
        assert(shown_decimals(v, unit + 1) == 2) by {
            lemma_quotient_below(v, wide, 1);
        }
        lemma_quotient_below(v * 100 + wide / 2, wide, 101);
    }
}

proof fn lemma_without_zeros_is_prefix(s: Seq<char>)
    ensures
        without_zeros(s).len() <= s.len(),
        without_zeros(s) == s.take(without_zeros(s).len() as int),
        without_zeros(s).len() > 0 ==> without_zeros(s).last() != '0',
    decreases s.len(),
{
    if s.len() > 0 && s.last() == '0' {
        lemma_without_zeros_is_prefix(s.drop_last());
        assert(without_zeros(s) =~= s.take(without_zeros(s).len() as int));
    } else {
        assert(s.take(s.len() as int) =~= s);
    }
}

/// The figure of an abbreviated count ends neither in a point nor, behind a point, in a zero.
pub proof fn law_short_figure_has_no_trailing_zero(value: u64)
    requires
        value >= 1000,
    ensures
        ({
            let unit = shown_unit(value as nat);
            let figure = fixed_text(
                rounded_units(value as nat, unit),
                shown_decimals(value as nat, unit),
            );
            figure.contains('.') ==> figure.last() != '0' && figure.last() != '.'
        }),
{
    let unit = shown_unit(value as nat);
    let rounded = rounded_units(value as nat, unit);
    let decimals = shown_decimals(value as nat, unit);
    let figure = fixed_text(rounded, decimals);
    if decimals == 0 {
        lemma_decimal_value(rounded);
        assert forall|i: int| 0 <= i < figure.len() implies figure[i] != '.' by {
            assert(text::is_digit(figure[i]));
        }
    } else {
        let whole = text::decimal(rounded / pow10(decimals));
        let fraction = zero_padded(rounded % pow10(decimals), decimals);
        let full = whole.push('.') + fraction;
        let stripped = without_zeros(full);
        lemma_decimal_value(rounded / pow10(decimals));
        lemma_decimal_value(rounded % pow10(decimals));
        lemma_without_zeros_is_prefix(full);
        assert forall|i: int| 0 <= i < full.len() && full[i] == '.' implies i == whole.len() by {
            if i < whole.len() {
                assert(text::is_digit(whole[i]));
            } else if i > whole.len() {
                assert(fraction[i - whole.len() - 1] == full[i]);
            }
        }
        if stripped.len() > 0 && stripped.last() == '.' {
            assert(full[stripped.len() - 1] == '.');
            assert(figure =~= full.take(whole.len() as int));
            assert(figure =~= whole);
            assert forall|i: int| 0 <= i < figure.len() implies figure[i] != '.' by {
                assert(text::is_digit(whole[i]));
            }
        }
    }
}

/// The count that the short text of a value stands for.
pub open spec fn shown_value(value: nat) -> nat {
    if value < 1000 {
        value
    } else {
        let unit = shown_unit(value);
        rounded_units(value, unit) * (unit_divisor(unit) / pow10(shown_decimals(value, unit)))
    }
}

/// The digits of a figure as one number, without its point.
pub open spec fn figure_digits(figure: Seq<char>) -> nat {
    if figure.contains('.') {
        let point = figure.index_of('.');
        text::digits_value(figure.take(point) + figure.skip(point + 1))
    } else {
        text::digits_value(figure)
    }
}

/// How many digits of a figure stand behind its point.
pub open spec fn figure_places(figure: Seq<char>) -> nat {
    if figure.contains('.') {
        (figure.len() - figure.index_of('.') - 1) as nat
    } else {
        0
    }
}

proof fn lemma_digits_of_concat(a: Seq<char>, b: Seq<char>)
    ensures
        text::digits_value(a + b) == text::digits_value(a) * pow10(b.len()) + text::digits_value(b),
    decreases b.len(),
{
    if b.len() == 0 {
        assert(a + b =~= a);
        assert(text::digits_value(b) == 0);
        assert(text::digits_value(a) * 1 == text::digits_value(a));
    } else {
        let init = b.drop_last();
        lemma_digits_of_concat(a, init);
        assert((a + b).drop_last() =~= a + init);
        assert((a + b).last() == b.last());
        let x = text::digits_value(a);
        let y = pow10(init.len());
        assert(x * (10 * y) == 10 * (x * y)) by (nonlinear_arith);
    }
}

proof fn lemma_digits_of_zeros(s: Seq<char>)
    requires
        forall|i: int| 0 <= i < s.len() ==> s[i] == '0',
    ensures
        text::digits_value(s) == 0,
    decreases s.len(),
{
    if s.len() > 0 {
        lemma_digits_of_zeros(s.drop_last());
    }
}

proof fn lemma_without_zeros_drops_zeros(s: Seq<char>)
    ensures
        without_zeros(s).len() <= s.len(),
        forall|i: int| without_zeros(s).len() <= i < s.len() ==> s[i] == '0',
    decreases s.len(),
{
    if s.len() > 0 && s.last() == '0' {
        let init = s.drop_last();
        lemma_without_zeros_drops_zeros(init);
        assert forall|i: int| without_zeros(s).len() <= i < s.len() implies s[i] == '0' by {
            if i < init.len() {
                assert(init[i] == s[i]);
            }
        }
    }
}

proof fn lemma_figure_reads_back(rounded: nat, decimals: nat)
    requires
        decimals <= 2,
    ensures
        ({
            let figure = fixed_text(rounded, decimals);
            &&& figure_places(figure) <= decimals
            &&& figure_digits(figure) * pow10((decimals - figure_places(figure)) as nat) == rounded
        }),
{
    let figure = fixed_text(rounded, decimals);
    lemma_small_powers();
    if decimals == 0 {
        lemma_decimal_value(rounded);
        assert(!figure.contains('.')) by {
            assert forall|i: int| 0 <= i < figure.len() implies figure[i] != '.' by {
                assert(text::is_digit(figure[i]));
            }
        }
        assert(figure_digits(figure) * 1 == rounded);
    } else {
        let power = pow10(decimals);
        let whole = text::decimal(rounded / power);
        let rest = text::decimal(rounded % power);
        let fraction = zero_padded(rounded % power, decimals);
        let full = whole.push('.') + fraction;
        let stripped = without_zeros(full);
        let point = whole.len() as int;
        lemma_decimal_value(rounded / power);
        lemma_decimal_value(rounded % power);
        lemma_decimal_length(rounded % power, decimals);
        lemma_without_zeros_is_prefix(full);
        lemma_without_zeros_drops_zeros(full);
        assert(full[point] == '.');
        assert(stripped.len() > point);
        let places = stripped.len() - point - 1;
        let head = fraction.take(places);
        let tail = fraction.skip(places);
        assert(fraction.len() == decimals);
        assert forall|i: int| 0 <= i < tail.len() implies tail[i] == '0' by {
            assert(tail[i] == full[stripped.len() + i]);
        }
        lemma_digits_of_zeros(tail);
        let zeros = Seq::new((decimals - rest.len()) as nat, |i: int| '0');
        lemma_digits_of_zeros(zeros);
        lemma_digits_of_concat(zeros, rest);
        assert(fraction == zeros + rest);
        assert(text::digits_value(fraction) == rounded % power) by {
            assert(0 * pow10(rest.len()) == 0);
        }
        lemma_digits_of_concat(whole, fraction);
        assert(text::digits_value(whole + fraction) == rounded) by {
            vstd::arithmetic::div_mod::lemma_fundamental_div_mod(rounded as int, power as int);
            vstd::arithmetic::mul::lemma_mul_is_commutative(
                power as int,
                (rounded / power) as int,
            );
        }
        lemma_digits_of_concat(whole + head, tail);
        assert((whole + head) + tail =~= whole + fraction);
        assert(text::digits_value(whole + head) * pow10((decimals - places) as nat) == rounded);
        assert forall|i: int| 0 <= i < point implies full[i] != '.' by {
            assert(text::is_digit(whole[i]));
        }
        if places == 0 {
            assert(stripped.last() == '.');
            assert(figure =~= whole);
            assert(!figure.contains('.')) by {
                assert forall|i: int| 0 <= i < figure.len() implies figure[i] != '.' by {
                    assert(full[i] == figure[i]);
                }
            }
            assert(whole + head =~= whole);
        } else {
            assert forall|i: int| point < i < full.len() implies full[i] != '.' by {
                assert(fraction[i - point - 1] == full[i]);
            }
            assert(stripped.last() == full[stripped.len() - 1]);
            assert(figure == stripped);
            assert(figure[point] == '.');
            assert(figure.contains('.'));
            let found = figure.index_of('.');
            assert(0 <= found < figure.len() && figure[found] == '.');
            assert(full[found] == '.');
            assert(found == point);
            assert(figure.take(point) + figure.skip(point + 1) =~= whole + head);
        }
    }
}

/// The short text of a count from a thousand on stands for the shown value: its digits, taken as one
/// number, count the unit over as many tens as there are places behind the point.
pub proof fn law_short_text_stands_for_shown_value(value: u64)
    requires
        value >= 1000,
    ensures
        ({
            let v = value as nat;
            let unit = shown_unit(v);
            let figure = fixed_text(rounded_units(v, unit), shown_decimals(v, unit));
            &&& short_text(v) == figure + unit_suffix(unit)
            &&& shown_value(v) == figure_digits(figure) * (unit_divisor(unit) / pow10(
                figure_places(figure),
            ))
        }),
{
    let v = value as nat;
    let unit = shown_unit(v);
    let decimals = shown_decimals(v, unit);
    let rounded = rounded_units(v, unit);
    let figure = fixed_text(rounded, decimals);
    lemma_small_powers();
    lemma_figure_reads_back(rounded, decimals);
    let digits = figure_digits(figure);
    let places = figure_places(figure);
    let missing = pow10((decimals - places) as nat);
    let fine = unit_divisor(unit) / pow10(decimals);
    let coarse = unit_divisor(unit) / pow10(places);
    let one = unit_divisor(unit);
    assert(one / 1 == 10 * (one / 10) && one / 10 == 10 * (one / 100));
    if places == decimals {
        assert(missing == 1 && coarse == fine);
        assert(missing * fine == 1 * fine) by (nonlinear_arith)
            requires
                missing == 1,
        ;
    } else if decimals - places == 1 {
        assert(missing == 10);
        assert(missing * fine == 10 * fine) by (nonlinear_arith)
            requires
                missing == 10,
        ;
        if decimals == 2 {
            assert(coarse == one / 10 && fine == one / 100);
        } else {
            assert(coarse == one / 1 && fine == one / 10);
        }
    } else {
        assert(missing == 100);
        assert(missing * fine == 100 * fine) by (nonlinear_arith)
            requires
                missing == 100,
        ;
        assert(coarse == one / 1 && fine == one / 100);
    }
    assert(rounded * fine == digits * coarse) by (nonlinear_arith)
        requires
            rounded == digits * missing,
            coarse == missing * fine,
    ;
}

/// The distance between two neighbouring counts that the short text can show near a value.
pub open spec fn short_step(value: nat) -> nat {
    if value < 1_000 {
        1
    } else if value < 10_000 {
        10
    } else if value < 100_000 {
        100
    } else if value < 1_000_000 {
        1_000
    } else if value < 10_000_000 {
        10_000
    } else if value < 100_000_000 {
        100_000
    } else if value < 1_000_000_000 {
        1_000_000
    } else if value < 10_000_000_000 {
        10_000_000
    } else if value < 100_000_000_000 {
        100_000_000
    } else if value < 1_000_000_000_000 {
        1_000_000_000
    } else if value < 10_000_000_000_000 {
        10_000_000_000
    } else if value < 100_000_000_000_000 {
        100_000_000_000
    } else {
        1_000_000_000_000
    }
}

proof fn lemma_small_powers()
    ensures
        pow10(0) == 1,
        pow10(1) == 10,
        pow10(2) == 100,
{
    reveal_with_fuel(pow10, 3);
}

/// The step is the unit of the value over the decimals that it leaves.
proof fn lemma_step_of_unit(value: nat)
    requires
        value >= 1000,
    ensures
        ({
            let unit = reached_unit(value);
            let decimals = shown_decimals(value, unit);
            &&& unit_divisor(unit) == short_step(value) * pow10(decimals)
            &&& unit_divisor(unit) / pow10(decimals) == short_step(value)
        }),
{
    lemma_small_powers();
    let unit = reached_unit(value);
    let step = short_step(value);
    let power = pow10(shown_decimals(value, unit));
    let whole = value / unit_divisor(unit);
    if whole >= 100 {
        assert(power == 1 && step == unit_divisor(unit));
        assert(step * power == step * 1) by (nonlinear_arith)
            requires
                power == 1,
        ;
    } else if whole >= 10 {
        assert(power == 10 && step * 10 == unit_divisor(unit));
        assert(step * power == step * 10) by (nonlinear_arith)
            requires
                power == 10,
        ;
    } else {
        assert(power == 100 && step * 100 == unit_divisor(unit));
        assert(step * power == step * 100) by (nonlinear_arith)
            requires
                power == 100,
        ;
    }
    vstd::arithmetic::div_mod::lemma_div_multiples_vanish(step as int, power as int);
    vstd::arithmetic::mul::lemma_mul_is_commutative(step as int, power as int);
}

proof fn lemma_common_factor(value: nat, step: nat, factor: nat)
    requires
        step > 0,
        step % 2 == 0,
        factor > 0,
    ensures
        (value * factor + step * factor / 2) / (step * factor) == (value + step / 2) / step,
{
    let half = step / 2;
    assert(step * factor == 2 * (half * factor)) by (nonlinear_arith)
        requires
            step == 2 * half,
    ;
    assert(value * factor + half * factor == (value + half) * factor) by (nonlinear_arith);
    vstd::arithmetic::mul::lemma_mul_is_commutative(factor as int, (value + half) as int);
    vstd::arithmetic::mul::lemma_mul_is_commutative(factor as int, step as int);
    assert(factor * step > 0) by (nonlinear_arith)
        requires
            factor > 0,
            step > 0,
    ;
    vstd::arithmetic::div_mod::lemma_div_multiples_vanish_quotient(
        factor as int,
        (value + half) as int,
        step as int,
    );
}

proof fn lemma_quotient_is(x: nat, d: nat, q: nat)
    requires
        d > 0,
        q * d <= x < (q + 1) * d,
    ensures
        x / d == q,
{
    assert((q + 1) * d == q * d + d) by (nonlinear_arith);
    vstd::arithmetic::div_mod::lemma_fundamental_div_mod_converse(
        x as int,
        d as int,
        q as int,
        x - q * d,
    );
}

/// A value that rounding carries to a thousand steps is one unit in the next unit.
proof fn lemma_carried_quotients(value: nat, step: nat)
    requires
        step > 0,
        step % 2 == 0,
        value < 1000 * step,
        (value + step / 2) / step >= 1000,
    ensures
        (value + step / 2) / step == 1000,
        (value * 100 + 1000 * step / 2) / (1000 * step) == 100,
{
    let whole = (value + step / 2) / step;
    vstd::arithmetic::div_mod::lemma_fundamental_div_mod((value + step / 2) as int, step as int);
    assert(step * whole >= 1000 * step) by (nonlinear_arith)
        requires
            whole >= 1000,
    ;
    let half = step / 2;
    assert(1000 * step - half <= value);
    assert(1001 * step == 1000 * step + step);
    lemma_quotient_is(value + half, step, 1000);
    let wide = 1000 * step;
    assert(wide / 2 == 1000 * half);
    assert(100 * wide == 100_000 * step);
    assert((100 + 1) * wide == 101_000 * step) by (nonlinear_arith)
        requires
            wide == 1000 * step,
    ;
    lemma_quotient_is(value * 100 + wide / 2, wide, 100);
}

/// The shown count is the value rounded half up to its step.
proof fn lemma_shown_rounds_to_step(value: nat)
    ensures
        shown_value(value) == (value + short_step(value) / 2) / short_step(value) * short_step(
            value,
        ),
{
    if value >= 1000 {
        lemma_small_powers();
        lemma_step_of_unit(value);
        let unit = reached_unit(value);
        let step = short_step(value);
        lemma_common_factor(value, step, pow10(shown_decimals(value, unit)));
        if shown_unit(value) != unit {
            let wide = unit_divisor(unit + 1);
            assert(shown_decimals(value, unit + 1) == 2) by {
                lemma_quotient_below(value, wide, 1);
            }
            let whole = (value + step / 2) / step;
            assert(value < 1000 * step);
            lemma_quotient_below(value + step / 2, step, 1001);
            assert(pow10(shown_decimals(value, unit)) == 1);
            assert(step == unit_divisor(unit));
            assert(rounded_units(value, unit) == whole);
            assert(value * pow10(2) == value * 100) by (nonlinear_arith)
                requires
                    pow10(2) == 100,
            ;
            lemma_carried_quotients(value, step);
            let rounded = rounded_units(value, unit + 1);
            assert(rounded == (value * 100 + wide / 2) / wide);
            let wide_step = wide / pow10(2);
            assert(wide_step == 10 * step);
            assert(rounded * wide_step == whole * step) by (nonlinear_arith)
                requires
                    rounded == 100,
                    wide_step == 10 * step,
                    whole == 1000,
            ;
        } else {
            assert(rounded_units(value, unit) == (value + step / 2) / step);
        }
    } else {
        assert((value + 0) / 1 * 1 == value);
    }
}

/// An abbreviated count is off by at most one two-hundredth of the value.
pub proof fn law_short_is_close(value: u64)
    ensures
        200 * (shown_value(value as nat) - value) <= value,
        200 * (value - shown_value(value as nat)) <= value,
{
    let v = value as nat;
    lemma_shown_rounds_to_step(v);
    if v >= 1000 {
        let step = short_step(v);
        let half = step / 2;
        let rounded = (v + half) / step;
        vstd::arithmetic::div_mod::lemma_fundamental_div_mod((v + half) as int, step as int);
        vstd::arithmetic::div_mod::lemma_mod_bound((v + half) as int, step as int);
        vstd::arithmetic::mul::lemma_mul_is_commutative(step as int, rounded as int);
        assert(step == 2 * half);
        assert(100 * step <= v);
    }
}

proof fn lemma_rounding_below(value: nat, step: nat, bound: nat)
    requires
        step > 0,
        value < bound * step,
    ensures
        (value + step / 2) / step * step <= bound * step,
{
    let quotient = (value + step / 2) / step;
    assert((bound + 1) * step == bound * step + step) by (nonlinear_arith);
    lemma_quotient_below(value + step / 2, step, bound + 1);
    assert(quotient * step <= bound * step) by (nonlinear_arith)
        requires
            quotient <= bound,
    ;
}

proof fn lemma_rounding_grows(a: nat, b: nat, step: nat)
    requires
        step > 0,
        a <= b,
    ensures
        (a + step / 2) / step * step <= (b + step / 2) / step * step,
{
    let x = (a + step / 2) / step;
    let y = (b + step / 2) / step;
    vstd::arithmetic::div_mod::lemma_div_is_ordered(
        (a + step / 2) as int,
        (b + step / 2) as int,
        step as int,
    );
    assert(x * step <= y * step) by (nonlinear_arith)
        requires
            x <= y,
    ;
}

/// A greater count never shows as a smaller one.
pub proof fn law_short_keeps_order(a: u64, b: u64)
    requires
        a <= b,
    ensures
        shown_value(a as nat) <= shown_value(b as nat),
{
    let x = a as nat;
    let y = b as nat;
    let small = short_step(x);
    let large = short_step(y);
    lemma_shown_rounds_to_step(x);
    lemma_shown_rounds_to_step(y);
    if small == large {
        lemma_rounding_grows(x, y, small);
    } else {
        assert(x < 1000 * small && 10 * small <= large && 100 * large <= y);
        lemma_rounding_below(x, small, 1000);
        lemma_rounding_grows(100 * large, y, large);
        lemma_quotient_is(100 * large + large / 2, large, 100);
    }
}

proof fn lemma_below_next_quotient(x: nat, d: nat)
    requires
        d > 0,
    ensures
        x < (x / d + 1) * d,
{
    assert(x < (x / d + 1) * d) by (nonlinear_arith)
        requires
            d > 0,
    ;
}

proof fn lemma_quotient_below(x: nat, d: nat, k: nat)
    requires
        d > 0,
        x < k * d,
    ensures
        x / d < k,
{
    assert(x / d < k) by (nonlinear_arith)
        requires
            d > 0,
            x < k * d,
    ;
}

} // verus!
