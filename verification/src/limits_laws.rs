//! What the account limits and their display guarantee.

use vstd::prelude::*;

use crate::limits;
use crate::limits::{
    AdditionalRateLimit, CodexLimitStatus, CodexLimitUnavailableReason, CodexLimitWindow,
    ProtocolRateLimitSnapshot, ProtocolRateLimitWindow, RateLimitWindowPayload, UsagePayload,
};
use crate::limits_view;
use crate::number;
use crate::table;
use crate::table::BorderStyle;
use crate::text;
use crate::watch_layout;

verus! {

/// A countdown shows the two largest units of a duration that are not zero, or the only one, each
/// with its own count; no duration is zero seconds.
pub proof fn law_countdown_shows_the_two_largest_units(
    days: nat,
    hours: nat,
    minutes: nat,
    seconds: nat,
)
    requires
        hours < 24,
        minutes < 60,
        seconds < 60,
    ensures
        ({
            let shown = limits_view::countdown_text(
                (days * 86_400 + hours * 3_600 + minutes * 60 + seconds) as int,
            );
            let d = text::decimal(days).push('d');
            let h = text::decimal(hours).push('h');
            let m = text::decimal(minutes).push('m');
            let s = text::decimal(seconds).push('s');
            if days > 0 {
                if hours > 0 {
                    shown == d + " "@ + h
                } else if minutes > 0 {
                    shown == d + " "@ + m
                } else if seconds > 0 {
                    shown == d + " "@ + s
                } else {
                    shown == d
                }
            } else if hours > 0 {
                if minutes > 0 {
                    shown == h + " "@ + m
                } else if seconds > 0 {
                    shown == h + " "@ + s
                } else {
                    shown == h
                }
            } else if minutes > 0 {
                if seconds > 0 {
                    shown == m + " "@ + s
                } else {
                    shown == m
                }
            } else {
                shown == s
            }
        }),
{
    let whole = (days * 86_400 + hours * 3_600 + minutes * 60 + seconds) as int;
    let parts = limits_view::countdown_parts(whole);
    lemma_units_of(days, hours, minutes, seconds);
    lemma_first_two(parts);
    let d = text::decimal(days).push('d');
    let h = text::decimal(hours).push('h');
    let m = text::decimal(minutes).push('m');
    let s = text::decimal(seconds).push('s');
    let none = Seq::<Seq<char>>::empty();
    let a = if days > 0 { seq![d] } else { none };
    let b = if hours > 0 { seq![h] } else { none };
    let c = if minutes > 0 { seq![m] } else { none };
    let e = if seconds > 0 || whole == 0 { seq![s] } else { none };
    assert(parts == a + b + c + e);
}

proof fn lemma_units_of(days: nat, hours: nat, minutes: nat, seconds: nat)
    requires
        hours < 24,
        minutes < 60,
        seconds < 60,
    ensures
        ({
            let whole = (days * 86_400 + hours * 3_600 + minutes * 60 + seconds) as int;
            &&& whole / 86_400 == days
            &&& whole % 86_400 / 3_600 == hours
            &&& whole % 3_600 / 60 == minutes
            &&& whole % 60 == seconds
        }),
{
}

proof fn lemma_first_two(parts: Seq<Seq<char>>)
    requires
        parts.len() > 0,
    ensures
        ({
            let shown = text::joined(if parts.len() > 2 { parts.take(2) } else { parts }, " "@);
            if parts.len() == 1 {
                shown == parts[0]
            } else {
                shown == parts[0] + " "@ + parts[1]
            }
        }),
{
    let shown = if parts.len() > 2 { parts.take(2) } else { parts };
    if shown.len() == 2 {
        assert(shown.drop_last() =~= seq![shown[0]]);
        assert(text::joined(shown.drop_last(), " "@) == shown[0]);
        assert(text::joined(shown, " "@) == shown[0] + " "@ + shown[1]);
    }
}

/// How many seconds a unit of a countdown stands for.
pub open spec fn unit_seconds(label: char) -> nat {
    if label == 'd' {
        86_400
    } else if label == 'h' {
        3_600
    } else if label == 'm' {
        60
    } else {
        1
    }
}

/// How many seconds the units of a countdown stand for together.
pub open spec fn units_value(parts: Seq<Seq<char>>) -> nat
    decreases parts.len(),
{
    if parts.len() == 0 {
        0
    } else {
        units_value(parts.drop_last()) + text::digits_value(parts.last().drop_last())
            * unit_seconds(parts.last().last())
    }
}

proof fn lemma_unit_value(value: int, label: char)
    requires
        value >= 0,
    ensures
        ({
            let part = limits_view::unit_text(value, label);
            &&& part.last() == label
            &&& text::digits_value(part.drop_last()) == value
        }),
{
    number::lemma_decimal_value(value as nat);
    assert(limits_view::unit_text(value, label).drop_last() =~= text::decimal(value as nat));
}

proof fn lemma_units_push(parts: Seq<Seq<char>>, value: int, label: char)
    requires
        value >= 0,
    ensures
        units_value(parts + seq![limits_view::unit_text(value, label)]) == units_value(parts)
            + value as nat * unit_seconds(label),
{
    lemma_unit_value(value, label);
    let part = limits_view::unit_text(value, label);
    assert((parts + seq![part]).drop_last() =~= parts);
}

/// The units listed for a duration add up to the duration; what the two shown leave out is less than
/// one of the smaller unit shown.
pub proof fn law_countdown_units_add_up(seconds: int)
    requires
        seconds >= 0,
    ensures
        ({
            let parts = limits_view::countdown_parts(seconds);
            let shown = if parts.len() > 2 { parts.take(2) } else { parts };
            &&& parts.len() > 0
            &&& units_value(parts) == seconds
            &&& units_value(shown) <= seconds
            &&& seconds < units_value(shown) + unit_seconds(shown.last().last())
            &&& parts.len() <= 2 ==> units_value(shown) == seconds
        }),
{
    let days = seconds / 86_400;
    let hours = seconds % 86_400 / 3_600;
    let minutes = seconds % 3_600 / 60;
    let rest = seconds % 60;
    assert(seconds == days * 86_400 + hours * 3_600 + minutes * 60 + rest);
    assert(hours < 24 && minutes < 60 && rest < 60);
    let none = Seq::<Seq<char>>::empty();
    let d = limits_view::unit_text(days, 'd');
    let h = limits_view::unit_text(hours, 'h');
    let m = limits_view::unit_text(minutes, 'm');
    let s = limits_view::unit_text(rest, 's');
    lemma_unit_value(days, 'd');
    lemma_unit_value(hours, 'h');
    lemma_unit_value(minutes, 'm');
    lemma_unit_value(rest, 's');
    let one = if days > 0 { seq![d] } else { none };
    let two = one + if hours > 0 { seq![h] } else { none };
    let three = two + if minutes > 0 { seq![m] } else { none };
    let four = three + if rest > 0 || seconds == 0 { seq![s] } else { none };
    let parts = limits_view::countdown_parts(seconds);
    assert(parts =~= four);
    assert(units_value(none) == 0);
    lemma_units_push(none, days, 'd');
    assert(none + seq![d] =~= seq![d]);
    assert(units_value(one) == days * 86_400);
    lemma_units_push(one, hours, 'h');
    assert(one + none =~= one);
    assert(units_value(two) == days * 86_400 + hours * 3_600);
    lemma_units_push(two, minutes, 'm');
    assert(two + none =~= two);
    assert(units_value(three) == days * 86_400 + hours * 3_600 + minutes * 60);
    lemma_units_push(three, rest, 's');
    assert(three + none =~= three);
    assert(units_value(three + seq![s]) == units_value(three) + rest) by {
        assert(unit_seconds('s') == 1);
        assert(rest as nat * 1 == rest);
    }
    assert(units_value(four) == seconds);
    if parts.len() > 2 {
        let shown = parts.take(2);
        if two.len() == 2 {
            assert(shown =~= two);
            assert(shown.last() == h);
        } else {
            assert(three.len() == 2);
            assert(shown =~= three);
            assert(shown.last() == m);
        }
    } else {
        assert(unit_seconds(parts.last().last()) >= 1);
    }
}

/// A window resets in the time from now until its reset; one that is overdue resets now, and one that
/// reports no reset shows none.
pub proof fn law_reset_counts_from_now(window: CodexLimitWindow, now: i64)
    ensures
        match (window.resets_at_epoch_seconds, limits_view::seconds_left(window, now)) {
            (Some(at), Some(left)) => {
                &&& at <= now ==> left == 0
                &&& at > now && at - now <= i64::MAX ==> now + left == at
                &&& at - now > i64::MAX ==> left == i64::MAX
                &&& left >= 0
            },
            (None, None) => true,
            _ => false,
        },
{
}

/// A bar fills its first cells and leaves the others empty, and the two kinds of cells differ.
pub proof fn law_bar_fills_its_first_cells(filled: nat, borders: BorderStyle, cell: int)
    requires
        filled <= 20,
        0 <= cell < 20,
    ensures
        ({
            let bar = limits_view::bar_text(filled, borders);
            &&& bar.len() == 20
            &&& match borders {
                BorderStyle::Ascii => bar[cell] == if cell < filled { '#' } else { '-' },
                BorderStyle::Unicode => bar[cell] == if cell < filled { '█' } else { '░' },
            }
        }),
{
}

/// The row of a window says what is left of it and, where it is known, when it resets; the row of a
/// missing window says that it is unavailable.
pub proof fn law_limit_row_says_what_is_left(
    label: Seq<char>,
    window: Option<CodexLimitWindow>,
    borders: BorderStyle,
    now: i64,
)
    requires
        label.len() <= 6,
    ensures
        ({
            let row = limits_view::limit_row(label, window, borders, now);
            let blanks = Seq::new((6 - label.len()) as nat, |i: int| ' ');
            match window {
                None => row == label + blanks + " unavailable"@,
                Some(found) => {
                    let percent = text::decimal(found.share.left_percent as nat);
                    let front = label + blanks + " ["@ + limits_view::bar_text(
                        found.share.filled_cells as nat,
                        borders,
                    ) + "] "@;
                    let left = (if percent.len() < 3 {
                        Seq::new((3 - percent.len()) as nat, |i: int| ' ')
                    } else {
                        Seq::empty()
                    }) + percent + "% left"@;
                    match limits_view::seconds_left(found, now) {
                        Some(seconds) => row == front + left + ", "@ + limits_view::countdown_text(
                            seconds,
                        ),
                        None => row == front + left,
                    }
                },
            }
        }),
{
    let row = limits_view::limit_row(label, window, borders, now);
    let blanks = Seq::new((6 - label.len()) as nat, |i: int| ' ');
    assert(table::filling(label, 6) =~= blanks);
    if let Some(found) = window {
        let percent = text::decimal(found.share.left_percent as nat);
        let pad = if percent.len() < 3 {
            Seq::new((3 - percent.len()) as nat, |i: int| ' ')
        } else {
            Seq::empty()
        };
        assert(table::filling(percent, 3) =~= pad);
        let front = label + blanks + " ["@ + limits_view::bar_text(
            found.share.filled_cells as nat,
            borders,
        ) + "] "@;
        match limits_view::seconds_left(found, now) {
            Some(seconds) => {
                assert(row =~= front + (pad + percent + "% left"@) + ", "@
                    + limits_view::countdown_text(seconds));
            },
            None => {
                assert(row =~= front + (pad + percent + "% left"@));
            },
        }
    }
}

/// A protocol window is shown with its share, its reset and its width, where that is positive.
pub proof fn law_protocol_window_is_taken_over(window: ProtocolRateLimitWindow)
    ensures
        match limits::protocol_window(Some(window)) {
            Some(shown) => {
                &&& window.share == Some(shown.share)
                &&& shown.resets_at_epoch_seconds == window.resets_at
                &&& match window.window_duration_mins {
                    Some(minutes) => if minutes > 0 {
                        shown.window_minutes == Some(minutes)
                    } else {
                        shown.window_minutes is None
                    },
                    None => shown.window_minutes is None,
                }
            },
            None => window.share is None,
        },
        limits::protocol_window(None) is None,
{
}

/// A backend window is shown with its share, its reset and its width in whole minutes, where that is
/// positive: the least number of minutes that covers its seconds.
pub proof fn law_backend_width_is_rounded_up(window: RateLimitWindowPayload)
    requires
        window.limit_window_seconds matches Some(seconds) ==> seconds + 59 <= i64::MAX,
    ensures
        match limits::backend_window(Some(window)) {
            Some(shown) => {
                &&& window.share == Some(shown.share)
                &&& shown.resets_at_epoch_seconds == window.reset_at
                &&& match (window.limit_window_seconds, shown.window_minutes) {
                    (Some(seconds), Some(minutes)) => seconds > 0 && (minutes - 1) * 60 < seconds
                        <= minutes * 60,
                    (Some(seconds), None) => seconds <= 0,
                    (None, None) => true,
                    (None, Some(_)) => false,
                }
            },
            None => window.share is None,
        },
        limits::backend_window(None) is None,
{
}

/// Whether a candidate is a window of a width.
pub open spec fn has_width(window: Option<CodexLimitWindow>, width: Option<i64>) -> bool {
    window matches Some(found) && found.window_minutes == width
}

/// Whether a position holds the first candidate of a width.
pub open spec fn first_with_width(
    windows: Seq<Option<CodexLimitWindow>>,
    width: Option<i64>,
    at: int,
) -> bool {
    &&& 0 <= at < windows.len()
    &&& has_width(windows[at], width)
    &&& forall|k: int| 0 <= k < at ==> !has_width(#[trigger] windows[k], width)
}

proof fn lemma_first_of_width(windows: Seq<Option<CodexLimitWindow>>, minutes: i64)
    ensures
        forall|at: int| #[trigger]
            first_with_width(windows, Some(minutes), at) ==> limits::first_of_width(
                windows,
                minutes,
            ) == windows[at],
        (forall|k: int| 0 <= k < windows.len() ==> !has_width(#[trigger] windows[k], Some(minutes)))
            ==> limits::first_of_width(windows, minutes) is None,
    decreases windows.len(),
{
    if windows.len() > 0 {
        let init = windows.drop_last();
        let last = windows.len() - 1;
        lemma_first_of_width(init, minutes);
        assert forall|at: int| #[trigger]
            first_with_width(windows, Some(minutes), at) implies limits::first_of_width(
            windows,
            minutes,
        ) == windows[at] by {
            if at < last {
                assert(init[at] == windows[at]);
                assert forall|k: int| 0 <= k < at implies !has_width(
                    #[trigger] init[k],
                    Some(minutes),
                ) by {
                    assert(init[k] == windows[k]);
                }
                assert(first_with_width(init, Some(minutes), at));
            } else {
                assert forall|k: int| 0 <= k < init.len() implies !has_width(
                    #[trigger] init[k],
                    Some(minutes),
                ) by {
                    assert(init[k] == windows[k]);
                }
            }
        }
        if forall|k: int|
            0 <= k < windows.len() ==> !has_width(#[trigger] windows[k], Some(minutes)) {
            assert forall|k: int| 0 <= k < init.len() implies !has_width(
                #[trigger] init[k],
                Some(minutes),
            ) by {
                assert(init[k] == windows[k]);
            }
            assert(!has_width(windows[last], Some(minutes)));
        }
    }
}

/// The short limit is the first window of five hours, and the weekly limit the first of a week, where
/// there is one.
pub proof fn law_windows_are_chosen_by_their_width(
    windows: Seq<Option<CodexLimitWindow>>,
    at: int,
)
    ensures
        first_with_width(windows, Some(300), at) ==> (limits::limits_among(windows) matches Some(
            found,
        ) && found.five_hour == windows[at]),
        first_with_width(windows, Some(10_080), at) ==> (limits::limits_among(windows) matches Some(
            found,
        ) && found.weekly == windows[at]),
{
    lemma_first_of_width(windows, 300);
    lemma_first_of_width(windows, 10_080);
}

/// Whether a position holds the second candidate of a width.
pub open spec fn second_with_width(
    windows: Seq<Option<CodexLimitWindow>>,
    width: Option<i64>,
    first: int,
    at: int,
) -> bool {
    &&& first_with_width(windows, width, first)
    &&& first < at < windows.len()
    &&& has_width(windows[at], width)
    &&& forall|k: int| first < k < at ==> !has_width(#[trigger] windows[k], width)
}

proof fn lemma_unknown_width(windows: Seq<Option<CodexLimitWindow>>)
    ensures
        forall|at: int| #[trigger]
            first_with_width(windows, None, at) ==> limits::unknown_width(windows).len() > 0
                && Some(limits::unknown_width(windows)[0]) == windows[at],
        forall|first: int, at: int| #[trigger]
            second_with_width(windows, None, first, at) ==> limits::unknown_width(windows).len() > 1
                && Some(limits::unknown_width(windows)[1]) == windows[at],
        (forall|k: int| 0 <= k < windows.len() ==> !has_width(#[trigger] windows[k], None))
            ==> limits::unknown_width(windows).len() == 0,
        forall|first: int|
            #[trigger] first_with_width(windows, None, first) && (forall|k: int|
                first < k < windows.len() ==> !has_width(#[trigger] windows[k], None))
                ==> limits::unknown_width(windows).len() == 1,
    decreases windows.len(),
{
    if windows.len() > 0 {
        let init = windows.drop_last();
        let last = windows.len() - 1;
        lemma_unknown_width(init);
        assert forall|k: int| 0 <= k < init.len() implies #[trigger] init[k] == windows[k] by {}
        let rest = limits::unknown_width(init);
        assert forall|at: int| #[trigger]
            first_with_width(windows, None, at) implies limits::unknown_width(windows).len() > 0
            && Some(limits::unknown_width(windows)[0]) == windows[at] by {
            if at < last {
                assert forall|k: int| 0 <= k < at implies !has_width(#[trigger] init[k], None) by {
                    assert(init[k] == windows[k]);
                }
                assert(first_with_width(init, None, at));
            } else {
                assert forall|k: int| 0 <= k < init.len() implies !has_width(
                    #[trigger] init[k],
                    None,
                ) by {
                    assert(init[k] == windows[k]);
                }
            }
        }
        assert forall|first: int, at: int| #[trigger]
            second_with_width(windows, None, first, at) implies limits::unknown_width(windows).len()
            > 1 && Some(limits::unknown_width(windows)[1]) == windows[at] by {
            assert forall|k: int| 0 <= k < first implies !has_width(#[trigger] init[k], None) by {
                assert(init[k] == windows[k]);
            }
            assert(first_with_width(init, None, first));
            if at < last {
                assert forall|k: int| first < k < at implies !has_width(
                    #[trigger] init[k],
                    None,
                ) by {
                    assert(init[k] == windows[k]);
                }
                assert(second_with_width(init, None, first, at));
            } else {
                assert forall|k: int| first < k < init.len() implies !has_width(
                    #[trigger] init[k],
                    None,
                ) by {
                    assert(init[k] == windows[k]);
                }
                assert(rest.len() == 1);
            }
        }
        if forall|k: int| 0 <= k < windows.len() ==> !has_width(#[trigger] windows[k], None) {
            assert forall|k: int| 0 <= k < init.len() implies !has_width(
                #[trigger] init[k],
                None,
            ) by {
                assert(init[k] == windows[k]);
            }
            assert(!has_width(windows[last], None));
        }
        assert forall|first: int|
            #[trigger] first_with_width(windows, None, first) && (forall|k: int|
                first < k < windows.len() ==> !has_width(
                    #[trigger] windows[k],
                    None,
                )) implies limits::unknown_width(windows).len() == 1 by {
            if first < last {
                assert forall|k: int| 0 <= k < first implies !has_width(
                    #[trigger] init[k],
                    None,
                ) by {
                    assert(init[k] == windows[k]);
                }
                assert(first_with_width(init, None, first));
                assert forall|k: int| first < k < init.len() implies !has_width(
                    #[trigger] init[k],
                    None,
                ) by {
                    assert(init[k] == windows[k]);
                }
                assert(!has_width(windows[last], None));
            } else {
                assert forall|k: int| 0 <= k < init.len() implies !has_width(
                    #[trigger] init[k],
                    None,
                ) by {
                    assert(init[k] == windows[k]);
                }
            }
        }
    }
}

/// Whether no candidate has a width.
pub open spec fn none_with_width(
    windows: Seq<Option<CodexLimitWindow>>,
    width: Option<i64>,
) -> bool {
    forall|k: int| 0 <= k < windows.len() ==> !has_width(#[trigger] windows[k], width)
}

/// Windows of unknown width fill in, in order, for a limit that no window of the right width gives:
/// first for the short limit, then for the weekly one.
pub proof fn law_windows_of_unknown_width_fill_in(
    windows: Seq<Option<CodexLimitWindow>>,
    first: int,
    second: int,
)
    requires
        first_with_width(windows, None, first),
    ensures
        none_with_width(windows, Some(300)) ==> (limits::limits_among(windows) matches Some(found)
            && found.five_hour == windows[first]),
        !none_with_width(windows, Some(300)) && none_with_width(windows, Some(10_080)) ==> (
        limits::limits_among(windows) matches Some(found) && found.weekly == windows[first]),
        none_with_width(windows, Some(300)) && none_with_width(windows, Some(10_080))
            && second_with_width(windows, None, first, second) ==> (limits::limits_among(
            windows,
        ) matches Some(found) && found.weekly == windows[second]),
{
    lemma_unknown_width(windows);
    lemma_first_of_width(windows, 300);
    lemma_first_of_width(windows, 10_080);
    if !none_with_width(windows, Some(300)) {
        let k = choose|k: int| 0 <= k < windows.len() && has_width(#[trigger] windows[k], Some(300));
        let at = lemma_least_with_width(windows, Some(300), k);
        assert(limits::first_of_width(windows, 300) == windows[at]);
    }
}

proof fn lemma_least_with_width(
    windows: Seq<Option<CodexLimitWindow>>,
    width: Option<i64>,
    known: int,
) -> (at: int)
    requires
        0 <= known < windows.len(),
        has_width(windows[known], width),
    ensures
        first_with_width(windows, width, at),
    decreases known,
{
    if exists|k: int| 0 <= k < known && has_width(#[trigger] windows[k], width) {
        let k = choose|k: int| 0 <= k < known && has_width(#[trigger] windows[k], width);
        lemma_least_with_width(windows, width, k)
    } else {
        known
    }
}

/// Without a window of five hours, of a week or of unknown width there are no limits.
pub proof fn law_other_windows_are_not_limits(windows: Seq<Option<CodexLimitWindow>>)
    requires
        none_with_width(windows, Some(300)),
        none_with_width(windows, Some(10_080)),
        none_with_width(windows, None),
    ensures
        limits::limits_among(windows) is None,
{
    lemma_unknown_width(windows);
    lemma_first_of_width(windows, 300);
    lemma_first_of_width(windows, 10_080);
}

/// The snapshot that speaks for Codex is the one under its identifier, else the first listed one that
/// names it, else the preferred one, unless that names another limit.
pub proof fn law_codex_snapshot_is_found(payload: UsagePayload, at: int)
    ensures
        ({
            let found = limits::codex_snapshot(payload);
            let preferred = match payload.rate_limits {
                Some(snapshot) => if snapshot.limit_id is None || snapshot.limit_id->Some_0@
                    == "codex"@ {
                    Some(snapshot)
                } else {
                    None
                },
                None => None,
            };
            match payload.rate_limits_by_limit_id {
                Some(listed) => {
                    let entries = listed.entries@;
                    &&& listed@.contains_key("codex"@) ==> found == Some(listed@["codex"@])
                    &&& !listed@.contains_key("codex"@) && first_named_codex(entries, at) ==> found
                        == Some(entries[at].1)
                    &&& !listed@.contains_key("codex"@) && (forall|k: int|
                        0 <= k < entries.len() ==> !names_codex((#[trigger] entries[k]).1))
                        ==> found == preferred
                },
                None => found == preferred,
            }
        }),
{
    if let Some(listed) = payload.rate_limits_by_limit_id {
        lemma_first_codex(listed.entries@, 0, at);
    }
}

/// Whether a snapshot names the Codex limit.
pub open spec fn names_codex(snapshot: ProtocolRateLimitSnapshot) -> bool {
    snapshot.limit_id matches Some(id) && id@ == "codex"@
}

/// Whether a position holds the first snapshot that names the Codex limit.
pub open spec fn first_named_codex(
    entries: Seq<(String, ProtocolRateLimitSnapshot)>,
    at: int,
) -> bool {
    &&& 0 <= at < entries.len()
    &&& names_codex(entries[at].1)
    &&& forall|k: int| 0 <= k < at ==> !names_codex((#[trigger] entries[k]).1)
}

proof fn lemma_first_codex(
    entries: Seq<(String, ProtocolRateLimitSnapshot)>,
    from: int,
    at: int,
)
    requires
        0 <= from,
    ensures
        first_named_codex(entries, at) && from <= at ==> limits::first_codex(entries, from) == Some(
            entries[at].1,
        ),
        (forall|k: int| from <= k < entries.len() ==> !names_codex((#[trigger] entries[k]).1))
            ==> limits::first_codex(entries, from) is None,
    decreases entries.len() - from,
{
    if from < entries.len() {
        lemma_first_codex(entries, from + 1, at);
        assert(names_codex(entries[from].1) == limits::names_codex(entries[from].1));
    }
}

/// The candidates of a payload in its backend shape are the two windows of its own limit, followed by
/// those of the additional limits that are metered for Codex or named after it, in order.
pub proof fn law_backend_candidates(payload: UsagePayload, additional: Seq<AdditionalRateLimit>)
    requires
        additional.len() > 0,
    ensures
        payload.additional_rate_limits is None ==> limits::backend_windows(payload) == (
        match payload.rate_limit {
            Some(own) => seq![
                limits::backend_window(own.primary_window),
                limits::backend_window(own.secondary_window),
            ],
            None => Seq::empty(),
        }),
        ({
            let last = additional.last();
            let codex = (last.metered_feature matches Some(name) && name@ == "codex"@) || (
            last.limit_name matches Some(name) && name@ == "codex"@);
            let rest = limits::additional_windows(additional.drop_last());
            match last.rate_limit {
                Some(details) if codex => limits::additional_windows(additional) == rest + seq![
                    limits::backend_window(details.primary_window),
                    limits::backend_window(details.secondary_window),
                ],
                _ => limits::additional_windows(additional) == rest,
            }
        }),
        limits::additional_windows(Seq::empty()) == Seq::<Option<CodexLimitWindow>>::empty(),
        payload.additional_rate_limits matches Some(listed) ==> limits::backend_windows(payload)
            == match payload.rate_limit {
            Some(own) => seq![
                limits::backend_window(own.primary_window),
                limits::backend_window(own.secondary_window),
            ] + limits::additional_windows(listed@),
            None => limits::additional_windows(listed@),
        },
{
    let none = Seq::<Option<CodexLimitWindow>>::empty();
    let rest = limits::additional_windows(additional.drop_last());
    assert(rest + none =~= rest);
    let own = limits::details_windows(payload.rate_limit);
    assert(own + none =~= own);
    if let Some(listed) = payload.additional_rate_limits {
        assert(none + limits::additional_windows(listed@) =~= limits::additional_windows(listed@));
    }
}

/// The limits of a payload are those that its protocol shape gives, else those of its backend shape;
/// where neither gives any there is no limit data, and an invalid response says so.
pub proof fn law_protocol_shape_goes_first(payload: UsagePayload)
    ensures
        limits::payload_status(None) == CodexLimitStatus::Unavailable(
            CodexLimitUnavailableReason::InvalidResponse,
        ),
        ({
            let by_protocol = match limits::codex_snapshot(payload) {
                Some(snapshot) => limits::limits_among(
                    seq![
                        limits::protocol_window(snapshot.primary),
                        limits::protocol_window(snapshot.secondary),
                    ],
                ),
                None => None,
            };
            let by_backend = limits::limits_among(limits::backend_windows(payload));
            limits::payload_status(Some(payload)) == match (by_protocol, by_backend) {
                (Some(found), _) => CodexLimitStatus::Available(found),
                (None, Some(found)) => CodexLimitStatus::Available(found),
                (None, None) => CodexLimitStatus::Unavailable(
                    CodexLimitUnavailableReason::NoLimitData,
                ),
            }
        }),
{
}

/// A response is read just where its status code says success; a rejected token has its own reason.
pub proof fn law_only_successful_responses_are_read(code: u16)
    ensures
        limits::response_failure(code) is None <==> 200 <= code <= 299,
        code == 401 ==> limits::response_failure(code) == Some(
            CodexLimitUnavailableReason::Unauthorized,
        ),
        code != 401 && !(200 <= code <= 299) ==> limits::response_failure(code) == Some(
            CodexLimitUnavailableReason::RequestFailed,
        ),
{
}

/// The token and the account of an auth file are sent trimmed: the token behind the word for a
/// bearer, the account only where there is one.
pub proof fn law_credentials_are_sent(auth: limits::AuthFile)
    ensures
        match limits::credentials_in(Some(auth)) {
            Ok(credentials) => auth.tokens matches Some(tokens) && {
                &&& credentials.access_token == text::trimmed(tokens.access_token@)
                &&& credentials.access_token.len() > 0
                &&& match tokens.account_id {
                    Some(id) => if text::trimmed(id@).len() > 0 {
                        credentials.account_id == Some(text::trimmed(id@))
                    } else {
                        credentials.account_id is None
                    },
                    None => credentials.account_id is None,
                }
                &&& limits::request_headers(credentials) matches Some(headers) ==> {
                    &&& headers[0] == ("authorization"@, "Bearer "@ + credentials.access_token)
                    &&& headers[1] == ("user-agent"@, "codex-cli"@)
                    &&& headers[2] == ("OAI-Product-Sku"@, "codex"@)
                    &&& credentials.account_id matches Some(id) ==> headers.contains(
                        ("ChatGPT-Account-ID"@, id),
                    )
                    &&& headers.len() == if credentials.account_id is Some { 4nat } else { 3nat }
                }
            },
            Err(reason) => match auth.tokens {
                Some(tokens) => text::trimmed(tokens.access_token@).len() == 0 && reason
                    == CodexLimitUnavailableReason::InvalidAuth,
                None => reason == if auth.openai_api_key is Some || auth.agent_identity is Some {
                    CodexLimitUnavailableReason::UnsupportedAuth
                } else {
                    CodexLimitUnavailableReason::InvalidAuth
                },
            },
        },
        limits::credentials_in(None) is Err,
{
    if let Ok(credentials) = limits::credentials_in(Some(auth)) {
        if let Some(headers) = limits::request_headers(credentials) {
            if let Some(id) = credentials.account_id {
                assert(headers[3] == ("ChatGPT-Account-ID"@, id));
            }
        }
    }
}

/// A limit for which no window of its width and no window of unknown width is left is not shown.
pub proof fn law_missing_windows_stay_missing(windows: Seq<Option<CodexLimitWindow>>, first: int)
    ensures
        none_with_width(windows, Some(300)) && none_with_width(windows, None) ==> (
        limits::limits_among(windows) matches Some(found) ==> found.five_hour is None),
        none_with_width(windows, Some(10_080)) && none_with_width(windows, None) ==> (
        limits::limits_among(windows) matches Some(found) ==> found.weekly is None),
        none_with_width(windows, Some(300)) && none_with_width(windows, Some(10_080))
            && first_with_width(windows, None, first) && (forall|k: int|
            first < k < windows.len() ==> !has_width(#[trigger] windows[k], None)) ==> (
        limits::limits_among(windows) matches Some(found) ==> found.weekly is None),
{
    lemma_unknown_width(windows);
    lemma_first_of_width(windows, 300);
    lemma_first_of_width(windows, 10_080);
}

/// No request is made with a token or an account that holds a control character other than a
/// tabulator.
pub proof fn law_control_characters_are_not_sent(credentials: limits::CredentialFacts, at: int)
    ensures
        0 <= at < credentials.access_token.len() && credentials.access_token[at] != '\t' && (
        credentials.access_token[at] < ' ' || credentials.access_token[at] == '\u{7f}')
            ==> limits::request_headers(credentials) is None,
        credentials.account_id matches Some(id) ==> (0 <= at < id.len() && id[at] != '\t' && (id[at]
            < ' ' || id[at] == '\u{7f}') ==> limits::request_headers(credentials) is None),
        (forall|i: int|
            0 <= i < credentials.access_token.len() ==> ' ' <= #[trigger] credentials.access_token[i]
                && credentials.access_token[i] != '\u{7f}') && (match credentials.account_id {
            Some(id) => forall|i: int|
                0 <= i < id.len() ==> ' ' <= #[trigger] id[i] && id[i] != '\u{7f}',
            None => true,
        }) ==> limits::request_headers(credentials) is Some,
{
    reveal_strlit("Bearer ");
    let bearer = "Bearer "@ + credentials.access_token;
    assert forall|i: int| 0 <= i < credentials.access_token.len() implies bearer[i + 7]
        == #[trigger] credentials.access_token[i] by {}
    if 0 <= at < credentials.access_token.len() {
        assert(bearer[at + 7] == credentials.access_token[at]);
    }
    assert forall|i: int| 7 <= i < bearer.len() implies #[trigger] bearer[i]
        == credentials.access_token[i - 7] by {}
    assert forall|i: int| 0 <= i < 7 implies (#[trigger] bearer[i]) >= ' ' && bearer[i] != '\u{7f}' by {
        assert(bearer[i] == "Bearer "@[i]);
    }
}

/// Each reason for which the limits are not shown has a text of its own.
pub proof fn law_reasons_are_told_apart(
    a: CodexLimitUnavailableReason,
    b: CodexLimitUnavailableReason,
)
    requires
        a != b,
    ensures
        limits::reason_text(a) != limits::reason_text(b),
{
    reveal_strlit("offline");
    reveal_strlit("auth.json missing");
    reveal_strlit("invalid auth.json");
    reveal_strlit("unsupported auth");
    reveal_strlit("request failed");
    reveal_strlit("unauthorized");
    reveal_strlit("invalid response");
    reveal_strlit("no limit data");
    assert("offline"@.len() == 7 && "auth.json missing"@.len() == 17 && "invalid auth.json"@.len()
        == 17 && "unsupported auth"@.len() == 16 && "request failed"@.len() == 14
        && "unauthorized"@.len() == 12 && "invalid response"@.len() == 16 && "no limit data"@.len()
        == 13);
    assert("auth.json missing"@[0] == 'a' && "invalid auth.json"@[0] == 'i');
    assert("unsupported auth"@[0] == 'u' && "invalid response"@[0] == 'i');
}

/// The limits are shown in a table of one column: a row for the short limit and, below it, one for
/// the weekly limit; where they are not available, one row with the reason.
pub proof fn law_limits_are_shown_in_one_column(
    found: limits::CodexLimits,
    reason: CodexLimitUnavailableReason,
    config: table::TableRenderConfig,
    now: i64,
)
    requires
        config.style == table::TableStyle::Plain,
    ensures
        limits_view::limits_text(CodexLimitStatus::Available(found), config, now) == ({
            let short = limits_view::limit_row("5h"@, found.five_hour, config.borders, now);
            let weekly = limits_view::limit_row("Weekly"@, found.weekly, config.borders, now);
            let headers = seq!["Codex Limits"@];
            let widths = table::table_widths(
                headers,
                seq![limits_view::single_row(short), limits_view::single_row(weekly)],
                config.number_format,
            );
            table::header_text(config, headers, widths) + table::row_text(
                config,
                headers,
                widths,
                seq![short],
                table::TableElement::Subtotal,
            ) + seq!['\n'] + table::row_text(
                config,
                headers,
                widths,
                seq![weekly],
                table::TableElement::Subtotal,
            ) + seq!['\n'] + table::rule_text(
                table::TableRuleKind::Bottom,
                config.borders,
                widths,
            )
        }),
        limits_view::limits_text(CodexLimitStatus::Unavailable(reason), config, now) == ({
            let cell = "unavailable ("@ + limits::reason_text(reason) + ")"@;
            let headers = seq!["Codex Limits"@];
            let widths = table::table_widths(
                headers,
                seq![limits_view::single_row(cell)],
                config.number_format,
            );
            table::header_text(config, headers, widths) + table::row_text(
                config,
                headers,
                widths,
                seq![cell],
                table::TableElement::Subtotal,
            ) + seq!['\n'] + table::rule_text(
                table::TableRuleKind::Bottom,
                config.borders,
                widths,
            )
        }),
{
    let short = limits_view::limit_row("5h"@, found.five_hour, config.borders, now);
    let weekly = limits_view::limit_row("Weekly"@, found.weekly, config.borders, now);
    let headers = seq!["Codex Limits"@];
    {
        let rows = limits_view::single_rows(seq![short, weekly]);
        let both = seq![limits_view::single_row(short), limits_view::single_row(weekly)];
        assert(rows =~= both);
        let widths = table::table_widths(headers, both, config.number_format);
        assert(both.drop_last() =~= seq![limits_view::single_row(short)]);
        assert(both.drop_last().drop_last() =~= Seq::<table::RowFacts>::empty());
        let first = table::row_text(
            config,
            headers,
            widths,
            seq![short],
            table::TableElement::Subtotal,
        );
        assert(watch_layout::rows_text(config, headers, widths, both.drop_last().drop_last())
            =~= Seq::<char>::empty());
        assert(watch_layout::rows_text(config, headers, widths, both.drop_last()) =~= first + seq![
            '\n',
        ]);
        assert(limits_view::limits_text(CodexLimitStatus::Available(found), config, now)
            =~= table::header_text(config, headers, widths) + first + seq!['\n'] + table::row_text(
            config,
            headers,
            widths,
            seq![weekly],
            table::TableElement::Subtotal,
        ) + seq!['\n'] + table::rule_text(table::TableRuleKind::Bottom, config.borders, widths));
    }
    let cell = "unavailable ("@ + limits::reason_text(reason) + ")"@;
    let rows = limits_view::single_rows(seq![cell]);
    assert(rows =~= seq![limits_view::single_row(cell)]);
    let widths = table::table_widths(headers, rows, config.number_format);
    assert(rows.drop_last() =~= Seq::<table::RowFacts>::empty());
    assert(watch_layout::rows_text(config, headers, widths, rows.drop_last())
        =~= Seq::<char>::empty());
    assert(limits_view::limits_text(CodexLimitStatus::Unavailable(reason), config, now)
        =~= table::header_text(config, headers, widths) + table::row_text(
        config,
        headers,
        widths,
        seq![cell],
        table::TableElement::Subtotal,
    ) + seq!['\n'] + table::rule_text(table::TableRuleKind::Bottom, config.borders, widths));
}

} // verus!
