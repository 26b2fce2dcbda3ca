//! What dates, instants and timezones guarantee.

use vstd::prelude::*;

use crate::calendar;
use crate::calendar::Timestamp;
use crate::model::ReportKind;
use crate::text;
use crate::text_laws;

verus! {

/// Instants are ordered by their seconds, and by their nanoseconds within a second.
pub proof fn law_instants_are_ordered(a: Timestamp, b: Timestamp)
    ensures
        calendar::earlier(a, b) <==> a.seconds < b.seconds || (a.seconds == b.seconds && a.nanos
            < b.nanos),
{
}

/// An instant as nanoseconds since the epoch.
pub open spec fn epoch_nanos(at: Timestamp) -> int {
    at.seconds * 1_000_000_000 + at.nanos
}

/// The time between two instants, neither of them a leap second, is the difference of their
/// nanoseconds.
pub proof fn law_time_between_instants(from: Timestamp, to: Timestamp)
    requires
        from.nanos < 1_000_000_000,
        to.nanos < 1_000_000_000,
    ensures
        calendar::nanos_between(from, to) == epoch_nanos(to) - epoch_nanos(from),
{
}

/// The watch window reaches one hour back, but not over the start of the day: it starts at the later
/// of both.
pub proof fn law_window_reaches_back_an_hour(timezone: Seq<char>, now: Timestamp)
    requires
        now.valid(),
        now.nanos < 1_000_000_000,
    ensures
        ({
            let day = calendar::local_day_number(timezone, now.seconds, now.nanos);
            match (calendar::day_start(timezone, day), calendar::window_start(timezone, now)) {
                (Ok(midnight), Ok(start)) => {
                    let hour_ago = epoch_nanos(now) - 3_600_000_000_000;
                    &&& !calendar::earlier(start, midnight)
                    &&& start == midnight || epoch_nanos(start) == hour_ago
                    &&& midnight.nanos < 1_000_000_000 ==> epoch_nanos(start) >= hour_ago
                    &&& midnight.nanos < 1_000_000_000 && epoch_nanos(midnight) < hour_ago
                        ==> epoch_nanos(start) == hour_ago
                },
                (Err(a), Err(b)) => a == b,
                _ => false,
            }
        }),
{
}

/// Whether a timezone has no instant at a minute of a day.
pub open spec fn has_no_instant(timezone: Seq<char>, day: i32, minute: int) -> bool {
    calendar::local_minute_instants(timezone, day, minute as i64).len() == 0
}

/// A day starts at the earliest instant of the first minute, from midnight on, that the timezone has.
pub proof fn law_day_starts_at_its_first_minute(timezone: Seq<char>, day: i32)
    ensures
        calendar::day_start(timezone, day) is Ok ==> exists|minute: int| #[trigger]
            starts_in(timezone, day, minute, calendar::day_start(timezone, day)->Ok_0),
        calendar::day_start(timezone, day) is Err ==> forall|minute: int|
            0 <= minute <= 1440 ==> #[trigger] has_no_instant(timezone, day, minute),
{
    lemma_first_instant(timezone, day, 0);
    if calendar::day_start(timezone, day) is Ok {
        let start = calendar::first_instant(timezone, day, 0)->Some_0;
        let found = choose|found: int| #[trigger] starts_in(timezone, day, found, start);
        assert(calendar::day_start(timezone, day)->Ok_0 == start);
        assert(starts_in(timezone, day, found, calendar::day_start(timezone, day)->Ok_0));
    }
}

/// Whether a day starts at an instant of a minute: no earlier minute has an instant, and no instant
/// of the first two that the minute may have is earlier.
pub open spec fn starts_in(timezone: Seq<char>, day: i32, minute: int, start: Timestamp) -> bool {
    let instants = calendar::local_minute_instants(timezone, day, minute as i64);
    &&& 0 <= minute <= 1440
    &&& instants.len() > 0
    &&& (start.seconds, start.nanos) == instants[0] || (instants.len() > 1 && (
        start.seconds,
        start.nanos,
    ) == instants[1])
    &&& start.seconds < instants[0].0 || (start.seconds == instants[0].0 && start.nanos
        <= instants[0].1)
    &&& instants.len() > 1 ==> start.seconds < instants[1].0 || (start.seconds == instants[1].0
        && start.nanos <= instants[1].1)
    &&& forall|earlier: int|
        0 <= earlier < minute ==> #[trigger] has_no_instant(timezone, day, earlier)
}

proof fn lemma_first_instant(timezone: Seq<char>, day: i32, minute: int)
    requires
        0 <= minute <= 1441,
        forall|earlier: int|
            0 <= earlier < minute ==> #[trigger] has_no_instant(timezone, day, earlier),
    ensures
        match calendar::first_instant(timezone, day, minute) {
            Some(start) => exists|found: int| #[trigger] starts_in(timezone, day, found, start),
            None => forall|any: int|
                0 <= any <= 1440 ==> #[trigger] has_no_instant(timezone, day, any),
        },
    decreases 1441 - minute,
{
    if minute <= 1440 {
        let instants = calendar::local_minute_instants(timezone, day, minute as i64);
        if instants.len() > 0 {
            let start = calendar::first_instant(timezone, day, minute)->Some_0;
            assert(starts_in(timezone, day, minute, start));
        } else {
            assert(has_no_instant(timezone, day, minute));
            lemma_first_instant(timezone, day, minute + 1);
        }
    }
}

/// The lower bound of a report is the day of the first filter and the upper one that of the second;
/// a filter that is absent sets no bound, and one that is malformed is an error.
pub proof fn law_filters_set_their_own_bounds(
    kind: ReportKind,
    since: Option<Seq<char>>,
    until: Option<Seq<char>>,
    today: i32,
)
    ensures
        match calendar::report_filters(kind, None, since, until, today) {
            Ok((first, last)) => {
                &&& match since {
                    Some(value) => calendar::filter_day(value) is Ok && first == Some(
                        calendar::filter_day(value)->Ok_0,
                    ),
                    None => first is None,
                }
                &&& match until {
                    Some(value) => calendar::filter_day(value) is Ok && last == Some(
                        calendar::filter_day(value)->Ok_0,
                    ),
                    None => last is None,
                }
            },
            Err(_) => (since matches Some(value) && calendar::filter_day(value) is Err) || (
            until matches Some(value) && calendar::filter_day(value) is Err),
        },
{
}

/// A window of trailing days is refused for reports that are not daily and beside explicit filters,
/// and else given wherever the calendar reaches back so far.
pub proof fn law_last_days_are_for_daily_reports_alone(
    kind: ReportKind,
    count: usize,
    since: Option<Seq<char>>,
    until: Option<Seq<char>>,
    today: i32,
)
    requires
        count > 0,
    ensures
        calendar::report_filters(kind, Some(count), since, until, today) is Ok <==> kind
            == ReportKind::Daily && since is None && until is None && today - count + 1
            >= calendar::FIRST_DAY,
{
}

/// Whether no character is a hyphen.
pub open spec fn no_hyphens(s: Seq<char>) -> bool {
    forall|i: int| 0 <= i < s.len() ==> s[i] != '-'
}

proof fn lemma_without_hyphens_of_plain(s: Seq<char>)
    requires
        no_hyphens(s),
    ensures
        calendar::without_hyphens(s) == s,
    decreases s.len(),
{
    reveal(Seq::filter);
    if s.len() > 0 {
        let rest = s.drop_last();
        assert(no_hyphens(rest));
        lemma_without_hyphens_of_plain(rest);
        assert(rest.push(s.last()) =~= s);
    } else {
        assert(calendar::without_hyphens(s) =~= s);
    }
}

/// A date filter is eight digits; hyphens between year, month and day, and white space around it, do
/// not matter.
pub proof fn law_date_filters_may_have_hyphens(digits: Seq<char>)
    requires
        digits.len() == 8,
        text::all_digits(digits),
    ensures
        ({
            let hyphenated = digits.subrange(0, 4).push('-') + digits.subrange(4, 6).push('-')
                + digits.subrange(6, 8);
            &&& calendar::compact_day(digits) matches Some(day) ==> calendar::filter_day(digits)
                == Ok::<i32, Seq<char>>(day) && calendar::filter_day(hyphenated) == Ok::<
                i32,
                Seq<char>,
            >(day)
            &&& calendar::compact_day(digits) is None ==> calendar::filter_day(digits) is Err
                && calendar::filter_day(hyphenated) is Err
        }),
{
    let hyphenated = digits.subrange(0, 4).push('-') + digits.subrange(4, 6).push('-')
        + digits.subrange(6, 8);
    assert(text::is_digit(digits[0]) && text::is_digit(digits[7]));
    assert(hyphenated[0] == digits[0] && hyphenated.last() == digits[7]);
    text_laws::law_trimmed_text_stays(digits);
    text_laws::law_trimmed_text_stays(hyphenated);
    assert forall|i: int| 0 <= i < digits.len() implies digits[i] != '-' by {
        assert(text::is_digit(digits[i]));
    }
    lemma_without_hyphens_of_plain(digits);
    let year = digits.subrange(0, 4);
    let month = digits.subrange(4, 6);
    let day = digits.subrange(6, 8);
    let keep = |c: char| c != '-';
    lemma_without_hyphens_of_plain(year);
    lemma_without_hyphens_of_plain(month);
    lemma_without_hyphens_of_plain(day);
    Seq::filter_distributes_over_add(year.push('-') + month.push('-'), day, keep);
    Seq::filter_distributes_over_add(year.push('-'), month.push('-'), keep);
    lemma_hyphen_dropped(year);
    lemma_hyphen_dropped(month);
    assert(year + month + day =~= digits);
}

proof fn lemma_hyphen_dropped(s: Seq<char>)
    ensures
        s.push('-').filter(|c: char| c != '-') == s.filter(|c: char| c != '-'),
{
    reveal(Seq::filter);
    assert(s.push('-').drop_last() =~= s);
}

/// A date filter without exactly eight digits, or with anything but digits and hyphens, is refused.
pub proof fn law_malformed_date_filters_are_refused(value: Seq<char>)
    requires
        text::trimmed(value).filter(|c: char| c != '-').len() != 8 || !text::all_digits(
            text::trimmed(value).filter(|c: char| c != '-'),
        ),
    ensures
        calendar::filter_day(value) is Err,
{
}

/// A known timezone is found under its name, also behind colons; what is found is a known name, and
/// what is left of the text when white space and leading colons are taken away.
pub proof fn law_known_timezones_are_found(name: Seq<char>)
    requires
        name.len() > 0,
        name[0] != ':',
        !text::is_white_space(name[0]),
        !text::is_white_space(name.last()),
    ensures
        calendar::known_timezone(name) ==> calendar::normalized_timezone(name) == Some(name)
            && calendar::normalized_timezone(seq![':'] + name) == Some(name),
        !calendar::known_timezone(name) ==> calendar::normalized_timezone(name) is None
            && calendar::normalized_timezone(seq![':'] + name) is None,
{
    let marked = seq![':'] + name;
    text_laws::law_trimmed_text_stays(name);
    assert(marked.last() == name.last());
    text_laws::law_trimmed_text_stays(marked);
    assert(marked.skip(1) =~= name);
}

/// The default timezone is the one that the first source to name a known one names: the variable, the
/// file contents, the link target; else it is UTC.
pub proof fn law_first_source_decides_the_timezone(
    variable: Option<Seq<char>>,
    contents: Option<Seq<char>>,
    target: Option<Seq<char>>,
)
    ensures
        ({
            let found = calendar::default_timezone(variable, contents, target);
            let by_variable = variable is Some && calendar::normalized_timezone(
                variable->Some_0,
            ) is Some;
            let by_contents = contents is Some && calendar::first_timezone(
                text::lines(contents->Some_0),
            ) is Some;
            let by_target = target is Some && calendar::zoneinfo_timezone(target->Some_0) is Some;
            &&& by_variable ==> Some(found) == calendar::normalized_timezone(variable->Some_0)
            &&& !by_variable && by_contents ==> Some(found) == calendar::first_timezone(
                text::lines(contents->Some_0),
            )
            &&& !by_variable && !by_contents && by_target ==> Some(found)
                == calendar::zoneinfo_timezone(target->Some_0)
            &&& !by_variable && !by_contents && !by_target ==> found == "UTC"@
        }),
{
}

/// The timezone of file contents is that of the first line that names a known one.
pub proof fn law_first_line_decides_the_timezone(lines: Seq<Seq<char>>)
    ensures
        match calendar::first_timezone(lines) {
            Some(name) => exists|i: int|
                0 <= i < lines.len() && calendar::normalized_timezone(#[trigger] lines[i]) == Some(
                    name,
                ) && forall|k: int|
                    0 <= k < i ==> calendar::normalized_timezone(#[trigger] lines[k]) is None,
            None => forall|i: int|
                0 <= i < lines.len() ==> calendar::normalized_timezone(#[trigger] lines[i]) is None,
        },
    decreases lines.len(),
{
    if lines.len() > 0 {
        if calendar::normalized_timezone(lines[0]) is Some {
            assert(calendar::normalized_timezone(lines[0]) == calendar::first_timezone(lines));
        } else {
            let rest = lines.skip(1);
            law_first_line_decides_the_timezone(rest);
            if let Some(name) = calendar::first_timezone(rest) {
                let i = choose|i: int|
                    0 <= i < rest.len() && calendar::normalized_timezone(#[trigger] rest[i])
                        == Some(name) && forall|k: int|
                        0 <= k < i ==> calendar::normalized_timezone(#[trigger] rest[k]) is None;
                assert(lines[i + 1] == rest[i]);
                assert forall|k: int| 0 <= k < i + 1 implies calendar::normalized_timezone(
                    #[trigger] lines[k],
                ) is None by {
                    if k > 0 {
                        assert(lines[k] == rest[k - 1]);
                    }
                }
            } else {
                assert forall|i: int|
                    0 <= i < lines.len() implies calendar::normalized_timezone(
                    #[trigger] lines[i],
                ) is None by {
                    if i > 0 {
                        assert(lines[i] == rest[i - 1]);
                    }
                }
            }
        }
    }
}

/// A link target names the timezone that stands behind the last directory of timezone files in it.
pub proof fn law_link_target_names_the_timezone(target: Seq<char>, at: int)
    requires
        0 <= at <= target.len() - 9,
        target.subrange(at, at + 9) == "zoneinfo/"@,
        forall|i: int|
            at < i && i + 9 <= target.len() ==> #[trigger] target.subrange(i, i + 9)
                != "zoneinfo/"@,
    ensures
        calendar::zoneinfo_timezone(target) == calendar::normalized_timezone(target.skip(at + 9)),
{
    reveal_strlit("zoneinfo/");
    let marker = "zoneinfo/"@;
    assert(marker.len() == 9);
    text_laws::law_last_match_is_the_last(target, marker, target.len() as int);
    let found = text::last_match(target, marker, target.len() as int);
    if found < at {
        assert(target.subrange(at, at + marker.len()) != marker);
    } else if found > at {
        assert(target.subrange(found, found + 9) != marker);
    }
}

/// An hour before an instant lies an hour before it, also where the instant is a leap second.
pub proof fn law_hour_before_lies_an_hour_before(at: Timestamp)
    requires
        at.valid(),
    ensures
        epoch_nanos(calendar::hour_before(at)) == epoch_nanos(at) - 3_600 * 1_000_000_000,
        calendar::hour_before(at).nanos < 1_000_000_000,
{
}

/// A leap second follows the second that it is counted with: the time from it to a later one of the
/// same day is counted from the end of that second. The time back is the same with the sign turned.
pub proof fn law_leap_seconds_are_counted(from: Timestamp, to: Timestamp)
    ensures
        calendar::nanos_between(from, to) == -calendar::nanos_between(to, from),
        from.nanos >= 1_000_000_000 && from.seconds % 86_400 < to.seconds % 86_400
            ==> calendar::nanos_between(from, to) == (to.seconds - from.seconds) * 1_000_000_000
            + to.nanos - (from.nanos - 1_000_000_000),
        from.seconds == to.seconds ==> calendar::nanos_between(from, to) == to.nanos - from.nanos,
{
}

/// All colons at the start of a timezone name are taken away, and nothing else.
pub proof fn law_leading_colons_are_taken_away(s: Seq<char>)
    ensures
        ({
            let name = calendar::without_colons(s);
            let cut = s.len() - name.len();
            &&& 0 <= cut
            &&& name == s.skip(cut)
            &&& forall|i: int| 0 <= i < cut ==> #[trigger] s[i] == ':'
            &&& name.len() > 0 ==> name[0] != ':'
        }),
    decreases s.len(),
{
    if s.len() > 0 && s[0] == ':' {
        let rest = s.skip(1);
        law_leading_colons_are_taken_away(rest);
        let name = calendar::without_colons(s);
        let cut = s.len() - name.len();
        assert(name =~= s.skip(cut));
        assert forall|i: int| 0 <= i < cut implies #[trigger] s[i] == ':' by {
            if i > 0 {
                assert(rest[i - 1] == s[i]);
            }
        }
    } else {
        assert(s.skip(0) =~= s);
    }
}

/// What is wrong with a date filter is said of the text that was given: that it has not the form of a
/// date, or that there is no such day.
pub proof fn law_bad_dates_are_named(value: Seq<char>)
    ensures
        calendar::filter_day(value) matches Err(message) ==> message
            == if text::trimmed(value).filter(|c: char| c != '-').len() == 8 && text::all_digits(
            text::trimmed(value).filter(|c: char| c != '-'),
        ) {
            "failed to parse date "@ + value
        } else {
            "invalid date format "@ + value + "; expected YYYYMMDD or YYYY-MM-DD"@
        },
        calendar::filter_day(value) matches Ok(day) ==> calendar::compact_day(
            text::trimmed(value).filter(|c: char| c != '-'),
        ) == Some(day),
{
}

/// Where both bounds are wrong, the first is named.
pub proof fn law_first_wrong_bound_is_named(
    kind: ReportKind,
    since: Seq<char>,
    until: Seq<char>,
    today: i32,
)
    ensures
        match (calendar::filter_day(since), calendar::filter_day(until)) {
            (Err(message), _) => calendar::report_filters(
                kind,
                None,
                Some(since),
                Some(until),
                today,
            ) == Err::<(Option<i32>, Option<i32>), Seq<char>>(message),
            (Ok(_), Err(message)) => calendar::report_filters(
                kind,
                None,
                Some(since),
                Some(until),
                today,
            ) == Err::<(Option<i32>, Option<i32>), Seq<char>>(message),
            (Ok(first), Ok(last)) => calendar::report_filters(
                kind,
                None,
                Some(since),
                Some(until),
                today,
            ) == Ok::<(Option<i32>, Option<i32>), Seq<char>>((Some(first), Some(last))),
        },
{
}

/// Where no minute of a day is shown by any clock of a timezone, the day and the timezone are named.
pub proof fn law_missing_day_start_is_named(timezone: Seq<char>, day: i32)
    ensures
        calendar::day_start(timezone, day) matches Err(message) ==> message
            == "failed to resolve the start of "@ + calendar::day_notation(day)
            + " in timezone "@ + timezone,
{
}

} // verus!
