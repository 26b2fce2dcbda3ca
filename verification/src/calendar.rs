//! Instants, calendar days and timezones.

use chrono::{DateTime, Datelike, Days, NaiveDate, SecondsFormat, TimeDelta, TimeZone};
use chrono_tz::Tz;
use vstd::prelude::*;
use vstd::string::*;

use crate::model::ReportKind;
use crate::text;
use crate::text::{chars_of, find_last, string_of, text_lines, trim_text};

verus! {

/// An instant in UTC: whole seconds since the Unix epoch, and nanoseconds that exceed a second
/// only within a leap second.
#[derive(Clone, Copy, Debug, PartialEq, Eq, Structural)]
pub struct Timestamp {
    /// Seconds since 1970-01-01T00:00:00Z.
    pub seconds: i64,
    /// Nanoseconds since that second.
    pub nanos: u32,
}

/// The order of instants.
pub open spec fn earlier(a: Timestamp, b: Timestamp) -> bool {
    a.seconds < b.seconds || (a.seconds == b.seconds && a.nanos < b.nanos)
}

impl Timestamp {
    /// Whether the calendar covers the instant.
    pub open spec fn valid(self) -> bool {
        &&& -8_000_000_000_000 <= self.seconds <= 8_000_000_000_000
        &&& self.nanos < 2_000_000_000
        &&& self.nanos >= 1_000_000_000 ==> self.seconds % 60 == 59
    }

    /// Return whether the calendar covers the instant.
    pub fn is_valid(&self) -> (r: bool)
        ensures
            r == self.valid(),
    {
        let seconds: i64 = self.seconds;
        let nanos: u32 = self.nanos;
        if seconds < -8_000_000_000_000 || seconds > 8_000_000_000_000 {
            return false;
        }
        let shifted: i64 = seconds + 8_000_000_000_040;
        assert(shifted % 60 == seconds % 60);
        nanos < 1_000_000_000 || (nanos < 2_000_000_000 && shifted % 60 == 59)
    }

    /// Whether this instant comes before the other.
    pub fn is_before(&self, other: &Timestamp) -> (r: bool)
        ensures
            r == earlier(*self, *other),
    {
        self.seconds < other.seconds || (self.seconds == other.seconds && self.nanos < other.nanos)
    }
}

/// Whether a day, counted from 0000-12-31, is one that a calendar can show at a valid instant, or
/// lies close to one.
pub open spec fn covered_day(day: i32) -> bool {
    -92_000_000 <= day <= 94_000_000
}

/// The instant that an RFC 3339 text denotes.
pub uninterp spec fn rfc3339_instant(text: Seq<char>) -> Option<(i64, u32)>;

/// Whether a name is that of an IANA timezone.
pub uninterp spec fn known_timezone(name: Seq<char>) -> bool;

/// The day, counted from 0000-12-31, that a calendar in a timezone shows at an instant.
pub uninterp spec fn local_day_number(timezone: Seq<char>, seconds: i64, nanos: u32) -> i32;

/// The instants at which a clock in a timezone shows a number of minutes past the midnight that
/// starts a day: none in a gap, two in an overlap.
pub uninterp spec fn local_minute_instants(timezone: Seq<char>, day: i32, minute: i64) -> Seq<
    (i64, u32),
>;

/// A day in `YYYY-MM-DD` form.
pub uninterp spec fn day_notation(day: i32) -> Seq<char>;

/// The month of a day in `YYYY-MM` form.
pub uninterp spec fn month_notation(day: i32) -> Seq<char>;

/// The time of day in `HH:MM:SS` form that a clock in a timezone shows at an instant.
pub uninterp spec fn clock_notation(timezone: Seq<char>, seconds: i64, nanos: u32) -> Seq<char>;

/// An instant in RFC 3339 form with milliseconds, in a timezone.
pub uninterp spec fn rfc3339_notation(timezone: Seq<char>, seconds: i64, nanos: u32) -> Seq<char>;

/// The day that an eight-digit text denotes as `YYYYMMDD`.
pub uninterp spec fn compact_day(text: Seq<char>) -> Option<i32>;

/// `chrono::DateTime::parse_from_rfc3339`, with the result taken to UTC. The contract names the
/// result as a function of the text, and says that it lies within a day of the years 0000 to 9999
/// and that a leap second ends a minute: the year has four digits, and offsets are whole minutes
/// below a day.
#[verifier::external_body]
fn parse_rfc3339(text: &str) -> (instant: Option<Timestamp>)
    ensures
        match instant {
            Some(t) => rfc3339_instant(text@) == Some((t.seconds, t.nanos)) && t.valid(),
            None => rfc3339_instant(text@) is None,
        },
{
    let parsed = DateTime::parse_from_rfc3339(text).ok()?.to_utc();
    Some(Timestamp { seconds: parsed.timestamp(), nanos: parsed.timestamp_subsec_nanos() })
}

/// `str::parse` into `chrono_tz::Tz`. The contract names whether it succeeds as a function of the
/// text.
#[verifier::external_body]
fn is_timezone(name: &str) -> (known: bool)
    ensures
        known == known_timezone(name@),
{
    name.parse::<Tz>().is_ok()
}

/// `chrono::DateTime::with_timezone` and `date_naive` in a `chrono_tz` timezone. The contract names
/// the day as a function of the timezone and the instant, and says that it lies within the
/// calendar: an offset from UTC is below a day.
#[verifier::external_body]
fn zone_day(timezone: &str, at: Timestamp) -> (day: i32)
    requires
        known_timezone(timezone@),
        at.valid(),
    ensures
        day == local_day_number(timezone@, at.seconds, at.nanos),
        covered_day(day),
{
    let zone = timezone.parse::<Tz>().unwrap();
    let utc = DateTime::from_timestamp(at.seconds, at.nanos).unwrap();
    utc.with_timezone(&zone).date_naive().num_days_from_ce()
}

/// `chrono::TimeZone::from_local_datetime` in a `chrono_tz` timezone, at a number of minutes past
/// midnight. The contract names the instants as a function of the timezone, the day and the
/// minutes; there are at most two.
#[verifier::external_body]
fn zone_instants(timezone: &str, day: i32, minute: i64) -> (instants: Vec<(i64, u32)>)
    requires
        known_timezone(timezone@),
        covered_day(day),
        0 <= minute <= 1440,
    ensures
        instants@ == local_minute_instants(timezone@, day, minute),
        instants.len() <= 2,
{
    let zone = timezone.parse::<Tz>().unwrap();
    let midnight = NaiveDate::from_num_days_from_ce_opt(day).unwrap().and_hms_opt(0, 0, 0).unwrap();
    let local = midnight + TimeDelta::minutes(minute);
    match zone.from_local_datetime(&local) {
        chrono::LocalResult::None => vec![],
        chrono::LocalResult::Single(t) => vec![(t.timestamp(), t.timestamp_subsec_nanos())],
        chrono::LocalResult::Ambiguous(a, b) => vec![
            (a.timestamp(), a.timestamp_subsec_nanos()),
            (b.timestamp(), b.timestamp_subsec_nanos()),
        ],
    }
}

/// `chrono::NaiveDate::format` with `%Y-%m-%d`. The contract names the text as a function of the
/// day.
#[verifier::external_body]
pub(crate) fn day_text(day: i32) -> (s: String)
    requires
        covered_day(day),
    ensures
        s@ == day_notation(day),
{
    NaiveDate::from_num_days_from_ce_opt(day).unwrap().format("%Y-%m-%d").to_string()
}

/// `chrono::NaiveDate::format` with `%Y-%m`. The contract names the text as a function of the day.
#[verifier::external_body]
pub(crate) fn month_text(day: i32) -> (s: String)
    requires
        covered_day(day),
    ensures
        s@ == month_notation(day),
{
    NaiveDate::from_num_days_from_ce_opt(day).unwrap().format("%Y-%m").to_string()
}

/// `chrono::DateTime::format` with `%H:%M:%S` in a `chrono_tz` timezone. The contract names the
/// text as a function of the timezone and the instant.
#[verifier::external_body]
fn zone_clock(timezone: &str, at: Timestamp) -> (s: String)
    requires
        known_timezone(timezone@),
        at.valid(),
    ensures
        s@ == clock_notation(timezone@, at.seconds, at.nanos),
{
    let zone = timezone.parse::<Tz>().unwrap();
    let utc = DateTime::from_timestamp(at.seconds, at.nanos).unwrap();
    utc.with_timezone(&zone).format("%H:%M:%S").to_string()
}

/// `chrono::DateTime::to_rfc3339_opts` with milliseconds and `Z` for UTC, in a `chrono_tz`
/// timezone. The contract names the text as a function of the timezone and the instant.
#[verifier::external_body]
fn zone_rfc3339(timezone: &str, at: Timestamp) -> (s: String)
    requires
        known_timezone(timezone@),
        at.valid(),
    ensures
        s@ == rfc3339_notation(timezone@, at.seconds, at.nanos),
{
    let zone = timezone.parse::<Tz>().unwrap();
    let utc = DateTime::from_timestamp(at.seconds, at.nanos).unwrap();
    utc.with_timezone(&zone).to_rfc3339_opts(SecondsFormat::Millis, true)
}

/// `chrono::NaiveDate::parse_from_str` with `%Y%m%d`. The contract names the day as a function of
/// the text.
#[verifier::external_body]
fn parse_compact_day(text: &str) -> (day: Option<i32>)
    ensures
        day == compact_day(text@),
{
    NaiveDate::parse_from_str(text, "%Y%m%d").ok().map(|date| date.num_days_from_ce())
}

/// The first day that the calendar covers.
pub const FIRST_DAY: i32 = -95_746_129;

/// `chrono::NaiveDate::checked_sub_days`. The contract says that it counts back by that many days,
/// and fails exactly where that leads past the first day of the calendar.
#[verifier::external_body]
fn days_before(day: i32, days: u64) -> (earlier_day: Option<i32>)
    requires
        covered_day(day),
    ensures
        earlier_day == (if day - days >= FIRST_DAY {
            Some((day - days) as i32)
        } else {
            None::<i32>
        }),
{
    let date = NaiveDate::from_num_days_from_ce_opt(day).unwrap();
    date.checked_sub_days(Days::new(days)).map(|date| date.num_days_from_ce())
}

/// An IANA timezone.
#[derive(Debug)]
pub struct Timezone {
    name: String,
}

impl Clone for Timezone {
    fn clone(&self) -> (copy: Timezone)
        ensures
            copy == *self,
    {
        proof {
            use_type_invariant(self);
        }
        Timezone { name: self.name.clone() }
    }
}

impl Timezone {
    /// Its name is known.
    #[verifier::type_invariant]
    spec fn inv(self) -> bool {
        known_timezone(self.name@)
    }

    /// The name of the timezone.
    pub closed spec fn spec_name(self) -> Seq<char> {
        self.name@
    }

    /// The day that a calendar in the timezone shows at an instant.
    pub open spec fn day_at(self, at: Timestamp) -> i32 {
        local_day_number(self.spec_name(), at.seconds, at.nanos)
    }

    /// The name of the timezone.
    pub fn name(&self) -> (name: &str)
        ensures
            name@ == self.spec_name(),
    {
        self.name.as_str()
    }

    /// The day that a calendar in the timezone shows at an instant.
    pub fn local_day(&self, at: Timestamp) -> (day: i32)
        requires
            at.valid(),
        ensures
            day == self.day_at(at),
            covered_day(day),
    {
        proof {
            use_type_invariant(self);
        }
        zone_day(self.name.as_str(), at)
    }

    /// The calendar day at an instant, as text.
    pub fn day_of(&self, at: Timestamp) -> (s: String)
        requires
            at.valid(),
        ensures
            s@ == day_notation(self.day_at(at)),
    {
        day_text(self.local_day(at))
    }

    /// The time of day that a clock in the timezone shows at an instant.
    pub fn clock_text(&self, at: Timestamp) -> (s: String)
        requires
            at.valid(),
        ensures
            s@ == clock_notation(self.spec_name(), at.seconds, at.nanos),
    {
        proof {
            use_type_invariant(self);
        }
        zone_clock(self.name.as_str(), at)
    }

    /// An instant in RFC 3339 form in the timezone.
    pub fn rfc3339_text(&self, at: Timestamp) -> (s: String)
        requires
            at.valid(),
        ensures
            s@ == rfc3339_notation(self.spec_name(), at.seconds, at.nanos),
    {
        proof {
            use_type_invariant(self);
        }
        zone_rfc3339(self.name.as_str(), at)
    }
}

/// Parse an RFC 3339 instant.
pub fn parse_timestamp(text: &str) -> (instant: Option<Timestamp>)
    ensures
        match instant {
            Some(t) => rfc3339_instant(text@) == Some((t.seconds, t.nanos)) && t.valid(),
            None => rfc3339_instant(text@) is None,
        },
{
    parse_rfc3339(text)
}

/// Parse a timezone name.
pub fn parse_timezone(candidate: &str) -> (r: Result<Timezone, String>)
    ensures
        match r {
            Ok(timezone) => known_timezone(candidate@) && timezone.spec_name() == candidate@,
            Err(message) => !known_timezone(candidate@) && message@ == "invalid timezone "@
                + candidate@,
        },
{
    if is_timezone(candidate) {
        Ok(Timezone { name: String::from_str(candidate) })
    } else {
        let mut message = String::from_str("invalid timezone ");
        message.append(candidate);
        Err(message)
    }
}

/// The text without leading colons.
pub open spec fn without_colons(s: Seq<char>) -> Seq<char>
    decreases s.len(),
{
    if s.len() > 0 && s[0] == ':' {
        without_colons(s.skip(1))
    } else {
        s
    }
}

/// The timezone name that a configuration source gives: trimmed, without leading colons, and
/// only where it is known.
pub open spec fn normalized_timezone(candidate: Seq<char>) -> Option<Seq<char>> {
    let name = without_colons(text::trimmed(candidate));
    if name.len() > 0 && known_timezone(name) {
        Some(name)
    } else {
        None
    }
}

/// The view of an optional text.
pub open spec fn optional_text(value: Option<String>) -> Option<Seq<char>> {
    match value {
        Some(s) => Some(s@),
        None => None,
    }
}

/// Normalize a timezone string from configuration sources.
pub fn normalize_timezone_name(candidate: &str) -> (name: Option<String>)
    ensures
        optional_text(name) == normalized_timezone(candidate@),
{
    let trimmed = trim_text(candidate);
    let chars = chars_of(trimmed.as_str());
    let mut from: usize = 0;
    let ghost whole = chars@;
    assert(whole.skip(0) == whole);
    while from < chars.len() && chars[from] == ':'
        invariant
            from <= chars.len(),
            chars@ == whole,
            without_colons(whole) == without_colons(whole.skip(from as int)),
        decreases chars.len() - from,
    {
        assert(whole.skip(from as int).skip(1) == whole.skip(from + 1));
        from += 1;
    }
    let normalized = string_of(&chars, from, chars.len());
    assert(normalized@ == whole.skip(from as int));
    if from == chars.len() || !is_timezone(normalized.as_str()) {
        return None;
    }
    Some(normalized)
}

/// The first timezone name that a line of a text gives.
pub open spec fn first_timezone(lines: Seq<Seq<char>>) -> Option<Seq<char>>
    decreases lines.len(),
{
    if lines.len() == 0 {
        None
    } else if normalized_timezone(lines[0]) is Some {
        normalized_timezone(lines[0])
    } else {
        first_timezone(lines.skip(1))
    }
}

/// Extract a timezone name from `/etc/timezone` contents.
pub fn timezone_from_etc_timezone_contents(contents: &str) -> (name: Option<String>)
    ensures
        optional_text(name) == first_timezone(text::lines(contents@)),
{
    let found = text_lines(contents);
    let ghost all = text::lines(contents@);
    let mut i: usize = 0;
    assert(all.skip(0) == all);
    while i < found.len()
        invariant
            i <= found.len(),
            all == text::lines(contents@),
            text::texts(found@) == all,
            first_timezone(all) == first_timezone(all.skip(i as int)),
        decreases found.len() - i,
    {
        assert(all.skip(i as int)[0] == found[i as int]@);
        let name = normalize_timezone_name(found[i].as_str());
        if name.is_some() {
            return name;
        }
        assert(all.skip(i as int).skip(1) == all.skip(i + 1));
        i += 1;
    }
    None
}

/// The timezone name that stands behind the last `zoneinfo/` of a path.
pub open spec fn zoneinfo_timezone(target: Seq<char>) -> Option<Seq<char>> {
    let marker = "zoneinfo/"@;
    let at = text::last_match(target, marker, target.len() as int);
    if at < 0 {
        None
    } else {
        normalized_timezone(target.skip(at + marker.len()))
    }
}

/// Extract a timezone name from an `/etc/localtime` symlink target.
pub fn timezone_from_localtime_target(target: &str) -> (name: Option<String>)
    ensures
        optional_text(name) == zoneinfo_timezone(target@),
{
    let chars = chars_of(target);
    let marker = chars_of("zoneinfo/");
    match find_last(&chars, &marker) {
        Some(at) => {
            let timezone = string_of(&chars, at + marker.len(), chars.len());
            assert(timezone@ == target@.skip(at + marker.len()));
            normalize_timezone_name(timezone.as_str())
        },
        None => None,
    }
}

/// The timezone that the first source to name one names: the `TZ` variable, the contents of
/// `/etc/timezone`, the target of `/etc/localtime`. It is UTC where none does.
pub open spec fn default_timezone(
    variable: Option<Seq<char>>,
    contents: Option<Seq<char>>,
    target: Option<Seq<char>>,
) -> Seq<char> {
    let from_variable = match variable {
        Some(s) => normalized_timezone(s),
        None => None,
    };
    let from_contents = match contents {
        Some(s) => first_timezone(text::lines(s)),
        None => None,
    };
    let from_target = match target {
        Some(s) => zoneinfo_timezone(s),
        None => None,
    };
    match (from_variable, from_contents, from_target) {
        (Some(name), _, _) => name,
        (None, Some(name), _) => name,
        (None, None, Some(name)) => name,
        (None, None, None) => "UTC"@,
    }
}

/// Resolve the default timezone name from the `TZ` variable, the `/etc/timezone` contents and the
/// `/etc/localtime` target, as far as there are any.
pub fn default_timezone_name(
    variable: &Option<String>,
    contents: &Option<String>,
    target: &Option<String>,
) -> (name: String)
    ensures
        name@ == default_timezone(
            optional_text(*variable),
            optional_text(*contents),
            optional_text(*target),
        ),
{
    if let Some(s) = variable {
        if let Some(name) = normalize_timezone_name(s.as_str()) {
            return name;
        }
    }
    if let Some(s) = contents {
        if let Some(name) = timezone_from_etc_timezone_contents(s.as_str()) {
            return name;
        }
    }
    if let Some(s) = target {
        if let Some(name) = timezone_from_localtime_target(s.as_str()) {
            return name;
        }
    }
    String::from_str("UTC")
}

/// The text without hyphens.
pub open spec fn without_hyphens(s: Seq<char>) -> Seq<char> {
    s.filter(|c: char| c != '-')
}

/// The day that a date filter denotes, or the reason why it denotes none.
pub open spec fn filter_day(value: Seq<char>) -> Result<i32, Seq<char>> {
    let compact = without_hyphens(text::trimmed(value));
    if compact.len() != 8 || !text::all_digits(compact) {
        Err("invalid date format "@ + value + "; expected YYYYMMDD or YYYY-MM-DD"@)
    } else {
        match compact_day(compact) {
            Some(day) => Ok(day),
            None => Err("failed to parse date "@ + value),
        }
    }
}

/// The view of a result with a text as its error.
pub open spec fn result_view<T>(r: Result<T, String>) -> Result<T, Seq<char>> {
    match r {
        Ok(value) => Ok(value),
        Err(message) => Err(message@),
    }
}

fn drop_hyphens(s: &str) -> (compact: String)
    ensures
        compact@ == without_hyphens(s@),
{
    let chars = chars_of(s);
    let mut compact = String::new();
    let mut i: usize = 0;
    let ghost keep = |c: char| c != '-';
    assert(s@.take(0).filter(keep) == Seq::<char>::empty()) by {
        reveal(Seq::filter);
    }
    while i < chars.len()
        invariant
            i <= chars.len(),
            chars@ == s@,
            keep == (|c: char| c != '-'),
            compact@ == s@.take(i as int).filter(keep),
        decreases chars.len() - i,
    {
        assert(s@.take(i + 1).drop_last() == s@.take(i as int));
        assert(s@.take(i + 1).filter(keep) == if keep(s@[i as int]) {
            s@.take(i as int).filter(keep).push(s@[i as int])
        } else {
            s@.take(i as int).filter(keep)
        }) by {
            reveal(Seq::filter);
        }
        if chars[i] != '-' {
            compact.push(chars[i]);
        }
        i += 1;
    }
    assert(s@.take(s@.len() as int) == s@);
    compact
}

/// Normalize a filter date.
pub fn normalize_filter_date(value: &str) -> (day: Result<i32, String>)
    ensures
        result_view(day) == filter_day(value@),
{
    let trimmed = trim_text(value);
    let compact = drop_hyphens(trimmed.as_str());
    let chars = chars_of(compact.as_str());
    let mut digits = chars.len() == 8;
    let mut i: usize = 0;
    while digits && i < chars.len()
        invariant
            i <= chars.len(),
            chars@ == compact@,
            digits ==> chars.len() == 8 && (forall|j: int|
                0 <= j < i ==> text::is_digit(#[trigger] chars@[j])),
            !digits ==> chars.len() != 8 || !text::all_digits(chars@),
        decreases chars.len() - i + if digits { 1int } else { 0int },
    {
        if chars[i] < '0' || chars[i] > '9' {
            digits = false;
            assert(!text::is_digit(chars@[i as int]));
        } else {
            i += 1;
        }
    }
    if !digits {
        let mut message = String::from_str("invalid date format ");
        message.append(value);
        message.append("; expected YYYYMMDD or YYYY-MM-DD");
        return Err(message);
    }
    match parse_compact_day(compact.as_str()) {
        Some(day) => Ok(day),
        None => {
            let mut message = String::from_str("failed to parse date ");
            message.append(value);
            Err(message)
        },
    }
}

/// The view of an optional string slice.
pub open spec fn optional_str(value: Option<&str>) -> Option<Seq<char>> {
    match value {
        Some(s) => Some(s@),
        None => None,
    }
}

/// The days of two optional date filters; the lower bound is read first.
pub open spec fn explicit_filters(since: Option<Seq<char>>, until: Option<Seq<char>>) -> Result<
    (Option<i32>, Option<i32>),
    Seq<char>,
> {
    match (since, until) {
        (None, None) => Ok((None, None)),
        (Some(s), None) => match filter_day(s) {
            Ok(day) => Ok((Some(day), None)),
            Err(message) => Err(message),
        },
        (None, Some(u)) => match filter_day(u) {
            Ok(day) => Ok((None, Some(day))),
            Err(message) => Err(message),
        },
        (Some(s), Some(u)) => match (filter_day(s), filter_day(u)) {
            (Err(message), _) => Err(message),
            (Ok(_), Err(message)) => Err(message),
            (Ok(first), Ok(last)) => Ok((Some(first), Some(last))),
        },
    }
}

/// The inclusive bounds that a report applies: the trailing days that end today, or the explicit
/// filters.
pub open spec fn report_filters(
    kind: ReportKind,
    last_days: Option<usize>,
    since: Option<Seq<char>>,
    until: Option<Seq<char>>,
    today: i32,
) -> Result<(Option<i32>, Option<i32>), Seq<char>> {
    match last_days {
        Some(count) => if kind != ReportKind::Daily {
            Err("last_days is only supported for the daily report"@)
        } else if since is Some || until is Some {
            Err("last_days cannot be combined with explicit since/until filters"@)
        } else if today - (count - 1) < FIRST_DAY {
            Err("last_days window underflowed the supported date range"@)
        } else {
            Ok((Some((today - (count - 1)) as i32), Some(today)))
        },
        None => explicit_filters(since, until),
    }
}

/// Resolve the effective date filters for the requested report.
pub fn resolve_report_date_filters(
    kind: ReportKind,
    last_days: Option<usize>,
    since: Option<&str>,
    until: Option<&str>,
    timezone: &Timezone,
    now_utc: Timestamp,
) -> (r: Result<(Option<i32>, Option<i32>), String>)
    requires
        last_days != Some(0usize),
        now_utc.valid(),
    ensures
        result_view(r) == report_filters(
            kind,
            last_days,
            optional_str(since),
            optional_str(until),
            timezone.day_at(now_utc),
        ),
{
    match last_days {
        Some(count) => {
            if kind != ReportKind::Daily {
                return Err(String::from_str("last_days is only supported for the daily report"));
            }
            if since.is_some() || until.is_some() {
                return Err(
                    String::from_str(
                        "last_days cannot be combined with explicit since/until filters",
                    ),
                );
            }
            let today = timezone.local_day(now_utc);
            match days_before(today, (count - 1) as u64) {
                Some(first) => Ok((Some(first), Some(today))),
                None => Err(
                    String::from_str("last_days window underflowed the supported date range"),
                ),
            }
        },
        None => {
            let first = match since {
                Some(value) => match normalize_filter_date(value) {
                    Ok(day) => Some(day),
                    Err(message) => return Err(message),
                },
                None => None,
            };
            let last = match until {
                Some(value) => match normalize_filter_date(value) {
                    Ok(day) => Some(day),
                    Err(message) => return Err(message),
                },
                None => None,
            };
            Ok((first, last))
        },
    }
}

/// The earliest of the instants that a clock reading stands for.
pub open spec fn earliest(instants: Seq<(i64, u32)>) -> Option<Timestamp> {
    if instants.len() == 0 {
        None
    } else {
        let first = Timestamp { seconds: instants[0].0, nanos: instants[0].1 };
        if instants.len() == 1 {
            Some(first)
        } else {
            let second = Timestamp { seconds: instants[1].0, nanos: instants[1].1 };
            if earlier(second, first) {
                Some(second)
            } else {
                Some(first)
            }
        }
    }
}

/// The earliest instant of the first clock reading, from `minute` on and within a day of midnight,
/// that the timezone has.
pub open spec fn first_instant(timezone: Seq<char>, day: i32, minute: int) -> Option<Timestamp>
    decreases 1441 - minute,
{
    if minute > 1440 {
        None
    } else {
        match earliest(local_minute_instants(timezone, day, minute as i64)) {
            Some(t) => Some(t),
            None => first_instant(timezone, day, minute + 1),
        }
    }
}

/// Resolve the earliest valid local timestamp at or after the midnight that starts a day.
pub fn first_valid_local_timestamp(timezone: &Timezone, day: i32) -> (instant: Option<Timestamp>)
    requires
        covered_day(day),
    ensures
        instant == first_instant(timezone.spec_name(), day, 0),
{
    proof {
        use_type_invariant(timezone);
    }
    let mut minute: i64 = 0;
    while minute <= 1440
        invariant
            0 <= minute <= 1441,
            covered_day(day),
            known_timezone(timezone.name@),
            first_instant(timezone.spec_name(), day, 0) == first_instant(
                timezone.spec_name(),
                day,
                minute as int,
            ),
        decreases 1441 - minute,
    {
        let instants = zone_instants(timezone.name.as_str(), day, minute);
        if instants.len() > 0 {
            let first = Timestamp { seconds: instants[0].0, nanos: instants[0].1 };
            if instants.len() > 1 {
                let second = Timestamp { seconds: instants[1].0, nanos: instants[1].1 };
                if second.is_before(&first) {
                    return Some(second);
                }
            }
            return Some(first);
        }
        minute += 1;
    }
    None
}

/// The start of a day in a timezone, or the reason why it has none.
pub open spec fn day_start(timezone: Seq<char>, day: i32) -> Result<Timestamp, Seq<char>> {
    match first_instant(timezone, day, 0) {
        Some(t) => Ok(t),
        None => Err(
            "failed to resolve the start of "@ + day_notation(day) + " in timezone "@ + timezone,
        ),
    }
}

/// Resolve local midnight for one day into UTC.
pub fn resolve_local_midnight_utc(timezone: &Timezone, day: i32) -> (r: Result<Timestamp, String>)
    requires
        covered_day(day),
    ensures
        result_view(r) == day_start(timezone.spec_name(), day),
{
    match first_valid_local_timestamp(timezone, day) {
        Some(t) => Ok(t),
        None => {
            let mut message = String::from_str("failed to resolve the start of ");
            message.append(day_text(day).as_str());
            message.append(" in timezone ");
            message.append(timezone.name());
            Err(message)
        },
    }
}

/// The instant one hour before; the hour before a leap second counts it as the second after.
pub open spec fn hour_before(at: Timestamp) -> Timestamp {
    if at.nanos >= 1_000_000_000 {
        Timestamp { seconds: (at.seconds - 3599) as i64, nanos: (at.nanos - 1_000_000_000) as u32 }
    } else {
        Timestamp { seconds: (at.seconds - 3600) as i64, nanos: at.nanos }
    }
}

/// The start of the rolling window: one hour back, but not before the day starts.
pub open spec fn window_start(timezone: Seq<char>, now: Timestamp) -> Result<
    Timestamp,
    Seq<char>,
> {
    match day_start(timezone, local_day_number(timezone, now.seconds, now.nanos)) {
        Ok(start) => if earlier(start, hour_before(now)) {
            Ok(hour_before(now))
        } else {
            Ok(start)
        },
        Err(message) => Err(message),
    }
}

/// Resolve the UTC start of the rolling watch window for one logical timestamp.
pub fn watch_window_start_utc(timezone: &Timezone, now_utc: Timestamp) -> (r: Result<
    Timestamp,
    String,
>)
    requires
        now_utc.valid(),
    ensures
        result_view(r) == window_start(timezone.spec_name(), now_utc),
{
    let current_day = timezone.local_day(now_utc);
    let day_start_utc = match resolve_local_midnight_utc(timezone, current_day) {
        Ok(start) => start,
        Err(message) => return Err(message),
    };
    let hour_ago = if now_utc.nanos >= 1_000_000_000 {
        Timestamp { seconds: now_utc.seconds - 3599, nanos: now_utc.nanos - 1_000_000_000 }
    } else {
        Timestamp { seconds: now_utc.seconds - 3600, nanos: now_utc.nanos }
    };
    if day_start_utc.is_before(&hour_ago) {
        Ok(hour_ago)
    } else {
        Ok(day_start_utc)
    }
}

/// The nanoseconds from one instant to another, counting a leap second where the time of day
/// passes one.
pub open spec fn nanos_between(from: Timestamp, to: Timestamp) -> int {
    let leap: int = if to.seconds % 86400 > from.seconds % 86400 && from.nanos >= 1_000_000_000 {
        1
    } else if to.seconds % 86400 < from.seconds % 86400 && to.nanos >= 1_000_000_000 {
        -1
    } else {
        0
    };
    (to.seconds - from.seconds + leap) * 1_000_000_000 + to.nanos - from.nanos
}

/// The nanoseconds from one instant to a later one, or zero where it is not later.
pub fn elapsed_nanos(from: Timestamp, to: Timestamp) -> (nanos: u128)
    ensures
        nanos == if nanos_between(from, to) > 0 {
            nanos_between(from, to)
        } else {
            0
        },
{
    let from_time: i64 = second_of_day(from.seconds);
    let to_time: i64 = second_of_day(to.seconds);
    let leap: i128 = if to_time > from_time && from.nanos >= 1_000_000_000 {
        1
    } else if to_time < from_time && to.nanos >= 1_000_000_000 {
        -1
    } else {
        0
    };
    let total: i128 = (to.seconds as i128 - from.seconds as i128 + leap) * 1_000_000_000
        + to.nanos as i128 - from.nanos as i128;
    if total > 0 {
        total as u128
    } else {
        0
    }
}

fn second_of_day(seconds: i64) -> (second: i64)
    ensures
        second == seconds % 86400,
{
    let shifted: i128 = seconds as i128 + 86400 * 106_751_991_167_301;
    let rest: u128 = (shifted as u128) % 86400;
    rest as i64
}

/// A window of trailing days ends today and covers exactly the days asked for.
pub proof fn law_last_days_window(count: usize, today: i32)
    requires
        0 < count,
        report_filters(ReportKind::Daily, Some(count), None, None, today) is Ok,
    ensures
        report_filters(ReportKind::Daily, Some(count), None, None, today) matches Ok((first, last))
            && last == Some(today) && (first matches Some(day) && today - day + 1 == count),
{
}

} // verus!
