//! Civil dates, instants and time zones.
//!
//! Dates are plain numbers, and an instant is a count of nanoseconds since the Unix epoch. What
//! a time zone says of an instant comes from `jiff`, which reads it from the zone's TZif data.
use jiff::tz::TimeZone;
use vstd::prelude::*;

verus! {

// ---------------------------------------------------------------------------
// Dates
// ---------------------------------------------------------------------------
/// A date of the proleptic Gregorian calendar.
#[derive(Debug, Clone, Copy, PartialEq, Eq, Structural)]
pub struct CivilDate {
    pub year: i16,
    pub month: i8,
    pub day: i8,
}

pub open spec fn is_leap_year(year: int) -> bool {
    year % 4 == 0 && (year % 100 != 0 || year % 400 == 0)
}

pub open spec fn days_in_month(year: int, month: int) -> int {
    if month == 2 {
        if is_leap_year(year) {
            29
        } else {
            28
        }
    } else if month == 4 || month == 6 || month == 9 || month == 11 {
        30
    } else {
        31
    }
}

/// The days of a year before a month.
pub open spec fn days_before_month(year: int, month: int) -> int
    decreases month,
{
    if month <= 1 {
        0
    } else {
        days_before_month(year, month - 1) + days_in_month(year, month - 1)
    }
}

/// The days before a year, counted from the start of the year 1.
pub open spec fn days_before_year(year: int) -> int {
    365 * (year - 1) + (year - 1) / 4 - (year - 1) / 100 + (year - 1) / 400
}

/// A decimal digit.
pub open spec fn digit(value: int) -> char {
    if value == 0 {
        '0'
    } else if value == 1 {
        '1'
    } else if value == 2 {
        '2'
    } else if value == 3 {
        '3'
    } else if value == 4 {
        '4'
    } else if value == 5 {
        '5'
    } else if value == 6 {
        '6'
    } else if value == 7 {
        '7'
    } else if value == 8 {
        '8'
    } else {
        '9'
    }
}

/// A number below 100 in two digits.
pub open spec fn two_digits(value: int) -> Seq<char> {
    seq![digit(value / 10), digit(value % 10)]
}

impl CivilDate {
    /// Whether the calendar has the date, in a year of at most four digits.
    pub open spec fn valid(self) -> bool {
        &&& -9999 <= self.year <= 9999
        &&& 1 <= self.month <= 12
        &&& 1 <= self.day <= days_in_month(self.year as int, self.month as int)
    }

    /// The number of the day, counted from the first of the year 1.
    pub open spec fn day_number(self) -> int {
        days_before_year(self.year as int) + days_before_month(
            self.year as int,
            self.month as int,
        ) + self.day
    }

    /// Whether a date is earlier than another.
    pub open spec fn before(self, other: CivilDate) -> bool {
        ||| self.year < other.year
        ||| self.year == other.year && self.month < other.month
        ||| self.year == other.year && self.month == other.month && self.day < other.day
    }

    /// A date as `YYYY-MM-DD`, with `-00` in front of a year before the year 0.
    pub open spec fn text(self) -> Seq<char> {
        let year = if self.year < 0 {
            -self.year
        } else {
            self.year as int
        };
        (if self.year < 0 {
            seq!['-', '0', '0']
        } else {
            Seq::empty()
        }) + two_digits(year / 100) + two_digits(year % 100) + seq!['-'] + two_digits(
            self.month as int,
        ) + seq!['-'] + two_digits(self.day as int)
    }

    /// Whether a date is earlier than another.
    pub fn is_before(&self, other: &CivilDate) -> (earlier: bool)
        ensures
            earlier == self.before(*other),
    {
        if self.year != other.year {
            self.year < other.year
        } else if self.month != other.month {
            self.month < other.month
        } else {
            self.day < other.day
        }
    }
}

proof fn lemma_months_ascend(year: int, from: int, to: int)
    requires
        1 <= from < to <= 13,
    ensures
        days_before_month(year, from) + days_in_month(year, from) <= days_before_month(year, to),
    decreases to - from,
{
    if from + 1 < to {
        lemma_months_ascend(year, from, to - 1);
    }
}

proof fn lemma_days_of_year(year: int)
    ensures
        days_before_month(year, 13) == 365 + (if is_leap_year(year) {
            1int
        } else {
            0
        }),
{
    assert(days_before_month(year, 1) == 0);
    assert(days_before_month(year, 2) == 31);
    assert(days_before_month(year, 3) == 31 + days_in_month(year, 2));
    assert(days_before_month(year, 4) == 62 + days_in_month(year, 2));
    assert(days_before_month(year, 5) == 92 + days_in_month(year, 2));
    assert(days_before_month(year, 6) == 123 + days_in_month(year, 2));
    assert(days_before_month(year, 7) == 153 + days_in_month(year, 2));
    assert(days_before_month(year, 8) == 184 + days_in_month(year, 2));
    assert(days_before_month(year, 9) == 215 + days_in_month(year, 2));
    assert(days_before_month(year, 10) == 245 + days_in_month(year, 2));
    assert(days_before_month(year, 11) == 276 + days_in_month(year, 2));
    assert(days_before_month(year, 12) == 306 + days_in_month(year, 2));
    assert(days_before_month(year, 13) == 337 + days_in_month(year, 2));
}

proof fn lemma_quotient_step(value: int, by: int)
    requires
        by == 4 || by == 100 || by == 400,
    ensures
        value / by == (value - 1) / by + (if value % by == 0 {
            1int
        } else {
            0
        }),
{
}

proof fn lemma_year_length(year: int)
    ensures
        days_before_year(year + 1) == days_before_year(year) + days_before_month(year, 13),
{
    lemma_days_of_year(year);
    lemma_quotient_step(year, 4);
    lemma_quotient_step(year, 100);
    lemma_quotient_step(year, 400);
}

proof fn lemma_years_ascend(from: int, to: int)
    requires
        from < to,
    ensures
        days_before_year(from) + days_before_month(from, 13) <= days_before_year(to),
    decreases to - from,
{
    lemma_year_length(to - 1);
    if from + 1 < to {
        lemma_years_ascend(from, to - 1);
        lemma_months_ascend(to - 1, 1, 13);
    }
}

proof fn lemma_day_number_ascends(a: CivilDate, b: CivilDate)
    requires
        a.valid(),
        b.valid(),
        a.before(b),
    ensures
        a.day_number() < b.day_number(),
{
    if a.year < b.year {
        lemma_years_ascend(a.year as int, b.year as int);
        lemma_months_ascend(a.year as int, a.month as int, 13);
        if b.month > 1 {
            lemma_months_ascend(b.year as int, 1, b.month as int);
        }
    } else if a.month < b.month {
        lemma_months_ascend(a.year as int, a.month as int, b.month as int);
    }
}

/// Dates are in the order of their day numbers, so that a range of a positive number of days
/// holds its first date.
pub proof fn lemma_dates_in_order(a: CivilDate, b: CivilDate)
    requires
        a.valid(),
        b.valid(),
    ensures
        a.before(b) <==> a.day_number() < b.day_number(),
{
    if a.before(b) {
        lemma_day_number_ascends(a, b);
    } else if b.before(a) {
        lemma_day_number_ascends(b, a);
    } else {
        assert(a == b);
    }
}

/// The date with a day number.
pub open spec fn date_of_day(day: int) -> CivilDate {
    choose|date: CivilDate| date.valid() && #[trigger] date.day_number() == day
}

/// There is no other date with the same day number.
pub proof fn lemma_date_of_day(date: CivilDate)
    requires
        date.valid(),
    ensures
        date_of_day(date.day_number()) == date,
{
    let found = date_of_day(date.day_number());
    assert(found.valid() && found.day_number() == date.day_number());
    lemma_dates_in_order(found, date);
    lemma_dates_in_order(date, found);
}

/// Whether the result is the date that the text names, if it is the text of a date whose year
/// is not negative.
pub open spec fn finds_named_date(text: Seq<char>, date: Result<CivilDate, jiff::Error>) -> bool {
    forall|named: CivilDate|
        named.valid() && named.year >= 0 && #[trigger] named.text() == text ==> date == Ok::<
            CivilDate,
            jiff::Error,
        >(named)
}

/// The errors of `jiff`.
#[verifier::external_type_specification]
#[verifier::external_body]
pub struct ExJiffError(jiff::Error);

/// `jiff::civil::Date::strptime` with the format `%Y-%m-%d`. It gives only dates that the
/// calendar has, and the date itself from the text of a date whose year is not negative. What it
/// makes of other texts is left open.
#[verifier::external_body]
pub(crate) fn strptime_date(text: &str) -> (date: Result<CivilDate, jiff::Error>)
    ensures
        date matches Ok(found) ==> found.valid(),
        finds_named_date(text@, date),
{
    let date = jiff::civil::Date::strptime("%Y-%m-%d", text)?;
    Ok(CivilDate { year: date.year(), month: date.month(), day: date.day() })
}

/// `jiff::civil::Date`'s `to_string`: the date as `YYYY-MM-DD`.
#[verifier::external_body]
pub(crate) fn date_text(date: CivilDate) -> (text: String)
    requires
        date.valid(),
    ensures
        text@ == date.text(),
{
    jiff::civil::date(date.year, date.month, date.day).to_string()
}

/// `jiff::civil::Date::until`: the days from one date to another.
#[verifier::external_body]
pub(crate) fn days_until(from: CivilDate, to: CivilDate) -> (days: Result<i32, jiff::Error>)
    requires
        from.valid(),
        to.valid(),
    ensures
        days matches Ok(days) && days == to.day_number() - from.day_number(),
{
    let from = jiff::civil::date(from.year, from.month, from.day);
    let to = jiff::civil::date(to.year, to.month, to.day);
    from.until(to).map(|span| span.get_days())
}

// ---------------------------------------------------------------------------
// Instants
// ---------------------------------------------------------------------------
/// The first second that an instant can have.
pub const MIN_SECOND: i64 = -377_705_023_201;

/// The last second that an instant can have.
pub const MAX_SECOND: i64 = 253_402_207_200;

/// The last millisecond that an instant can have.
pub const MAX_MILLISECOND: i64 = 253_402_207_200_999;

/// Whether a count of nanoseconds is an instant.
pub open spec fn is_instant(nanosecond: int) -> bool {
    MIN_SECOND * 1_000_000_000 <= nanosecond <= MAX_SECOND * 1_000_000_000 + 999_999_999
}

/// Whether a second and nanoseconds behind it are an instant: both are in range, the
/// nanoseconds being less than a second in either direction.
pub open spec fn is_timestamp(second: i64, nanosecond: i32) -> bool {
    &&& MIN_SECOND <= second <= MAX_SECOND
    &&& -999_999_999 <= nanosecond <= 999_999_999
    &&& is_instant(second * 1_000_000_000 + nanosecond)
}

/// The whole milliseconds of an instant, towards the epoch.
pub open spec fn whole_milliseconds(nanosecond: int) -> int {
    if nanosecond >= 0 {
        nanosecond / 1_000_000
    } else {
        -(-nanosecond / 1_000_000)
    }
}

/// The day number of the first of January 1970.
pub const EPOCH_DAY: i64 = 719_163;

/// The number of the day that a count of nanoseconds since the epoch falls into.
pub open spec fn day_at(nanosecond: int) -> int {
    EPOCH_DAY + nanosecond / 86_400_000_000_000
}

/// The hour of the day that a count of nanoseconds since the epoch falls into.
pub open spec fn hour_at(nanosecond: int) -> int {
    nanosecond % 86_400_000_000_000 / 3_600_000_000_000
}

/// `jiff::Timestamp::new`: the instant some nanoseconds behind a second, where there is one.
#[verifier::external_body]
pub(crate) fn instant_at(second: i64, nanosecond: i32) -> (instant: Result<i128, jiff::Error>)
    ensures
        match instant {
            Ok(found) => is_timestamp(second, nanosecond) && found == second * 1_000_000_000
                + nanosecond,
            Err(_) => !is_timestamp(second, nanosecond),
        },
{
    jiff::Timestamp::new(second, nanosecond).map(|timestamp| timestamp.as_nanosecond())
}

/// The whole milliseconds of an instant.
pub fn as_millisecond(instant: i128) -> (millisecond: i64)
    requires
        is_instant(instant as int),
    ensures
        millisecond == whole_milliseconds(instant as int),
{
    if instant >= 0 {
        (instant / 1_000_000) as i64
    } else {
        let before: i128 = -instant;
        -((before / 1_000_000) as i64)
    }
}

// ---------------------------------------------------------------------------
// Time zones
// ---------------------------------------------------------------------------
/// A time zone of `jiff`.
#[verifier::external_type_specification]
#[verifier::external_body]
pub struct ExTimeZone(TimeZone);

/// The TZif data that a time zone holds.
pub uninterp spec fn zone_data(zone: TimeZone) -> Seq<u8>;

/// Whether `jiff` reads bytes as TZif data.
pub uninterp spec fn is_tzif(data: Seq<u8>) -> bool;

/// The name and the TZif data that the bundled database has for a time zone.
pub uninterp spec fn tzdb_entry(name: Seq<char>) -> Option<(Seq<char>, Seq<u8>)>;

/// The offset from UTC, in seconds, that TZif data gives for an instant.
pub uninterp spec fn zone_offset(data: Seq<u8>, instant: int) -> i32;

/// An instant moved by the offset that TZif data gives for it, in nanoseconds.
pub open spec fn local_time(data: Seq<u8>, instant: int) -> int {
    instant + zone_offset(data, instant) * 1_000_000_000
}

/// The instant of a local hour's start by the earlier of its readings.
pub uninterp spec fn zone_earlier(data: Seq<u8>, year: i16, month: i8, day: i8, hour: i8) -> Option<
    i128,
>;

/// The instant of a local hour's start by the later of its readings.
pub uninterp spec fn zone_later(data: Seq<u8>, year: i16, month: i8, day: i8, hour: i8) -> Option<
    i128,
>;

/// The first transition behind an instant.
pub uninterp spec fn zone_following(data: Seq<u8>, instant: int) -> Option<i128>;

/// The last transition before an instant.
pub uninterp spec fn zone_preceding(data: Seq<u8>, instant: int) -> Option<i128>;

/// `jiff_tzdb::get`: the entry of the bundled database for a name, found without regard to case.
#[verifier::external_body]
pub(crate) fn tzdb_get(name: &str) -> (entry: Option<(&'static str, &'static [u8])>)
    ensures
        match entry {
            Some((name_found, data)) => tzdb_entry(name@) == Some((name_found@, data@)),
            None => tzdb_entry(name@) is None,
        },
{
    jiff_tzdb::get(name)
}

/// `jiff_tzdb::VERSION`: the release of the bundled database.
#[verifier::external_body]
pub(crate) fn tzdb_version() -> (version: Option<&'static str>)
    ensures
        version matches Some(version) && version@ == "2026c"@,
{
    jiff_tzdb::VERSION
}

/// `jiff::tz::TimeZone::tzif`: the time zone with the given TZif data. What it says of instants
/// does not depend on its name.
#[verifier::external_body]
pub(crate) fn read_zone(name: &str, data: &[u8]) -> (zone: Result<TimeZone, jiff::Error>)
    ensures
        zone is Ok <==> is_tzif(data@),
        zone matches Ok(zone) ==> zone_data(zone) == data@,
{
    TimeZone::tzif(name, data)
}

/// `jiff::tz::TimeZone::to_offset`: the offset from UTC at an instant, in seconds.
#[verifier::external_body]
pub(crate) fn offset_at(zone: &TimeZone, instant: i128) -> (seconds: i32)
    requires
        is_instant(instant as int),
    ensures
        seconds == zone_offset(zone_data(*zone), instant as int),
{
    zone.to_offset(jiff::Timestamp::from_nanosecond(instant).unwrap()).seconds()
}

/// `jiff::tz::TimeZone::to_datetime`: the local date and hour at an instant, which are those of
/// the instant in UTC moved by the zone's offset.
#[verifier::external_body]
pub(crate) fn datetime_at(zone: &TimeZone, instant: i128) -> (local: (CivilDate, i8))
    requires
        is_instant(instant as int),
    ensures
        local.0.valid(),
        local.0.day_number() == day_at(local_time(zone_data(*zone), instant as int)),
        local.1 == hour_at(local_time(zone_data(*zone), instant as int)),
{
    let local = zone.to_datetime(jiff::Timestamp::from_nanosecond(instant).unwrap());
    (CivilDate { year: local.year(), month: local.month(), day: local.day() }, local.hour())
}

/// `jiff::tz::TimeZone::to_ambiguous_timestamp` and `AmbiguousTimestamp::earlier`: the instant
/// at which a local hour starts, by the earlier of two readings.
#[verifier::external_body]
pub(crate) fn earlier_hour_start(zone: &TimeZone, date: CivilDate, hour: i8) -> (instant: Option<
    i128,
>)
    requires
        date.valid(),
        0 <= hour <= 23,
    ensures
        instant == zone_earlier(zone_data(*zone), date.year, date.month, date.day, hour),
        instant matches Some(instant) ==> is_instant(instant as int),
{
    let start = jiff::civil::date(date.year, date.month, date.day).at(hour, 0, 0, 0);
    let found = zone.to_ambiguous_timestamp(start).earlier().ok();
    found.map(|timestamp| timestamp.as_nanosecond())
}

/// `jiff::tz::TimeZone::to_ambiguous_timestamp` and `AmbiguousTimestamp::later`: the instant at
/// which a local hour starts, by the later of two readings.
#[verifier::external_body]
pub(crate) fn later_hour_start(zone: &TimeZone, date: CivilDate, hour: i8) -> (instant: Option<
    i128,
>)
    requires
        date.valid(),
        0 <= hour <= 23,
    ensures
        instant == zone_later(zone_data(*zone), date.year, date.month, date.day, hour),
        instant matches Some(instant) ==> is_instant(instant as int),
{
    let start = jiff::civil::date(date.year, date.month, date.day).at(hour, 0, 0, 0);
    let found = zone.to_ambiguous_timestamp(start).later().ok();
    found.map(|timestamp| timestamp.as_nanosecond())
}

/// `jiff::tz::TimeZone::following`: the first transition behind an instant.
#[verifier::external_body]
pub(crate) fn transition_following(zone: &TimeZone, instant: i128) -> (transition: Option<i128>)
    requires
        is_instant(instant as int),
    ensures
        transition == zone_following(zone_data(*zone), instant as int),
        transition matches Some(transition) ==> is_instant(transition as int),
{
    let mut found = zone.following(jiff::Timestamp::from_nanosecond(instant).unwrap());
    found.next().map(|transition| transition.timestamp().as_nanosecond())
}

/// `jiff::tz::TimeZone::preceding`: the last transition before an instant.
#[verifier::external_body]
pub(crate) fn transition_preceding(zone: &TimeZone, instant: i128) -> (transition: Option<i128>)
    requires
        is_instant(instant as int),
    ensures
        transition == zone_preceding(zone_data(*zone), instant as int),
        transition matches Some(transition) ==> is_instant(transition as int),
{
    let mut found = zone.preceding(jiff::Timestamp::from_nanosecond(instant).unwrap());
    found.next().map(|transition| transition.timestamp().as_nanosecond())
}

/// The milliseconds of an instant are whole ones, rounded towards the epoch.
pub proof fn lemma_whole_milliseconds(nanosecond: int)
    ensures
        nanosecond >= 0 ==> whole_milliseconds(nanosecond) * 1_000_000 <= nanosecond < (
        whole_milliseconds(nanosecond) + 1) * 1_000_000,
        nanosecond <= 0 ==> (whole_milliseconds(nanosecond) - 1) * 1_000_000 < nanosecond
            <= whole_milliseconds(nanosecond) * 1_000_000,
{
}

} // verus!
