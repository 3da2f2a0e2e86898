//! What a report is asked for: texts, dates and a time zone.
use jiff::tz::TimeZone;
use vstd::prelude::*;
use vstd::utf8::*;

use crate::calendar::{
    date_text, days_until, digit, is_tzif, read_zone, strptime_date, tzdb_entry, tzdb_get,
    tzdb_version, zone_data, CivilDate,
};
use crate::ordered::{
    lemma_bytes_irreflexive, lemma_bytes_transitive, place_text, same_text, text_before, Place,
};
use crate::remote_report::error::{
    RemoteUsageError, MAX_CLIENTS, MAX_QUERY_CLIENT_BYTES, MAX_RANGE_DAYS, MAX_TEXT_BYTES,
    REMOTE_TZDB_REVISION,
};
use crate::text::{is_nfc, nfc_form};

verus! {

// ---------------------------------------------------------------------------
// Texts
// ---------------------------------------------------------------------------
/// The bytes of a text in UTF-8.
pub open spec fn byte_len(text: Seq<char>) -> int {
    encode_utf8(text).len() as int
}

/// A text that a report takes: not empty unless that is allowed, of at most 255 bytes, and in
/// Normalization Form C.
pub open spec fn is_valid_text(text: Seq<char>, allow_empty: bool) -> bool {
    &&& allow_empty || text.len() > 0
    &&& byte_len(text) <= MAX_TEXT_BYTES
    &&& nfc_form(text) == text
}

/// A short ASCII text, which a report always takes.
pub open spec fn is_plain_text(text: Seq<char>, allow_empty: bool) -> bool {
    &&& allow_empty || text.len() > 0
    &&& text.len() <= MAX_TEXT_BYTES
    &&& is_ascii_chars(text)
}

/// Checks a text.
pub fn validate_text(value: &str, allow_empty: bool) -> (checked: Result<(), RemoteUsageError>)
    ensures
        checked == (if is_valid_text(value@, allow_empty) {
            Ok::<(), RemoteUsageError>(())
        } else {
            Err(RemoteUsageError::InvalidText)
        }),
        is_plain_text(value@, allow_empty) ==> checked is Ok,
{
    proof {
        if is_ascii_chars(value@) {
            is_ascii_chars_encode_utf8(value@);
        }
    }
    if !allow_empty && value.is_empty() {
        return Err(RemoteUsageError::InvalidText);
    }
    if value.as_bytes().len() > MAX_TEXT_BYTES {
        return Err(RemoteUsageError::InvalidText);
    }
    if !is_nfc(value) {
        return Err(RemoteUsageError::InvalidText);
    }
    Ok(())
}

// ---------------------------------------------------------------------------
// Queries
// ---------------------------------------------------------------------------
/// Whether a text is that of a date whose year is not negative.
pub open spec fn is_date_text(text: Seq<char>, date: CivilDate) -> bool {
    date.valid() && date.year >= 0 && date.text() == text
}

/// The text of a date is ASCII: ten characters, or thirteen before the year 0.
pub proof fn lemma_date_text_shape(date: CivilDate)
    requires
        date.valid(),
    ensures
        is_ascii_chars(date.text()),
        date.text().len() == (if date.year < 0 {
            13int
        } else {
            10
        }),
        date.year >= 0 ==> date.text()[4] == '-' && date.text()[7] == '-',
        byte_len(date.text()) == date.text().len(),
{
    is_ascii_chars_encode_utf8(date.text());
}

/// The value of a decimal digit.
pub open spec fn digit_value(digit: char) -> int {
    digit as u32 - 48
}

/// The text of a date whose year is not negative reads as its year, its month and its day.
pub proof fn lemma_date_text_reads_back(date: CivilDate)
    requires
        date.valid(),
        date.year >= 0,
    ensures
        ({
            let text = date.text();
            &&& date.year == digit_value(text[0]) * 1000 + digit_value(text[1]) * 100 + digit_value(
                text[2],
            ) * 10 + digit_value(text[3])
            &&& text[4] == '-'
            &&& date.month == digit_value(text[5]) * 10 + digit_value(text[6])
            &&& text[7] == '-'
            &&& date.day == digit_value(text[8]) * 10 + digit_value(text[9])
            &&& text.len() == 10
        }),
{
    let text = date.text();
    let year = date.year as int;
    lemma_digit_value(year / 100 / 10);
    lemma_digit_value(year / 100 % 10);
    lemma_digit_value(year % 100 / 10);
    lemma_digit_value(year % 100 % 10);
    lemma_digit_value(date.month as int / 10);
    lemma_digit_value(date.month as int % 10);
    lemma_digit_value(date.day as int / 10);
    lemma_digit_value(date.day as int % 10);
    assert(text[0] == digit(year / 100 / 10));
    assert(text[1] == digit(year / 100 % 10));
    assert(text[2] == digit(year % 100 / 10));
    assert(text[3] == digit(year % 100 % 10));
    assert(text[5] == digit(date.month as int / 10));
    assert(text[6] == digit(date.month as int % 10));
    assert(text[8] == digit(date.day as int / 10));
    assert(text[9] == digit(date.day as int % 10));
    assert(year == year / 100 / 10 * 1000 + year / 100 % 10 * 100 + year % 100 / 10 * 10 + year
        % 100 % 10);
}

proof fn lemma_digit_value(value: int)
    requires
        0 <= value < 10,
    ensures
        digit_value(digit(value)) == value,
{
}

/// A text names at most one date.
pub proof fn lemma_date_text_injective(a: CivilDate, b: CivilDate)
    requires
        a.valid(),
        b.valid(),
        a.text() == b.text(),
    ensures
        a == b,
{
    lemma_date_text_shape(a);
    lemma_date_text_shape(b);
    let from = if a.year < 0 {
        3int
    } else {
        0
    };
    let text = a.text();
    assert forall|i: int| 0 <= i < text.len() implies text[i] == b.text()[i] by {}
    assert(text[from] == b.text()[from]);
    assert(text[from + 1] == b.text()[from + 1]);
    assert(text[from + 2] == b.text()[from + 2]);
    assert(text[from + 3] == b.text()[from + 3]);
    assert(text[from + 5] == b.text()[from + 5]);
    assert(text[from + 6] == b.text()[from + 6]);
    assert(text[from + 8] == b.text()[from + 8]);
    assert(text[from + 9] == b.text()[from + 9]);
}

/// Reads a date in exactly the form `YYYY-MM-DD`.
pub fn parse_date(value: &str) -> (date: Result<CivilDate, RemoteUsageError>)
    ensures
        match date {
            Ok(date) => is_date_text(value@, date),
            Err(error) => error == RemoteUsageError::InvalidQuery && forall|date: CivilDate|
                !#[trigger] is_date_text(value@, date),
        },
{
    let bytes = value.as_bytes();
    proof {
        assert forall|date: CivilDate| is_date_text(value@, date) implies bytes@.len() == 10
            && bytes@[4] == 0x2d && bytes@[7] == 0x2d by {
            lemma_date_text_shape(date);
            is_ascii_chars_encode_utf8(value@);
        }
    }
    if bytes.len() != 10 || bytes[4] != 0x2d || bytes[7] != 0x2d {
        return Err(RemoteUsageError::InvalidQuery);
    }
    let date = match strptime_date(value) {
        Ok(date) => date,
        Err(_) => return Err(RemoteUsageError::InvalidQuery),
    };
    if !same_text(date_text(date).as_str(), value) {
        return Err(RemoteUsageError::InvalidQuery);
    }
    proof {
        lemma_date_text_shape(date);
    }
    Ok(date)
}

/// What a report is asked for.
#[derive(Clone, Debug, PartialEq, Eq)]
pub struct RemoteUsageQueryV1 {
    pub clients: Vec<String>,
    pub start_date: String,
    pub end_date_exclusive: String,
    pub timezone: String,
    pub tzdb_revision: String,
}

/// A query with texts as characters.
pub ghost struct QueryModel {
    pub clients: Seq<Seq<char>>,
    pub start_date: Seq<char>,
    pub end_date_exclusive: Seq<char>,
    pub timezone: Seq<char>,
    pub tzdb_revision: Seq<char>,
}

impl View for RemoteUsageQueryV1 {
    type V = QueryModel;

    open spec fn view(&self) -> QueryModel {
        QueryModel {
            clients: self.clients@.map_values(|client: String| client@),
            start_date: self.start_date@,
            end_date_exclusive: self.end_date_exclusive@,
            timezone: self.timezone@,
            tzdb_revision: self.tzdb_revision@,
        }
    }
}

/// The bytes of the clients, unless one is not a valid text or brings them over the limit: the
/// first such client decides.
pub open spec fn clients_bytes(clients: Seq<Seq<char>>) -> Result<int, RemoteUsageError>
    decreases clients.len(),
{
    if clients.len() == 0 {
        Ok(0)
    } else {
        match clients_bytes(clients.drop_last()) {
            Err(error) => Err(error),
            Ok(total) => {
                let bytes = total + byte_len(clients.last());
                if !is_valid_text(clients.last(), false) {
                    Err(RemoteUsageError::InvalidText)
                } else if bytes > MAX_QUERY_CLIENT_BYTES {
                    Err(RemoteUsageError::LimitExceeded)
                } else {
                    Ok(bytes)
                }
            },
        }
    }
}

/// Whether the clients are in strictly ascending order of their bytes.
pub open spec fn is_ascending(clients: Seq<Seq<char>>) -> bool {
    forall|i: int|
        #![trigger clients[i]]
        0 <= i < clients.len() - 1 ==> text_before(clients[i], clients[i + 1])
}

/// The date that a text names.
pub open spec fn date_named(text: Seq<char>) -> Option<CivilDate> {
    if exists|date: CivilDate| is_date_text(text, date) {
        Some(choose|date: CivilDate| is_date_text(text, date))
    } else {
        None
    }
}

/// The dates that a query asks for: from the first to the one before the second.
pub open spec fn query_dates(query: QueryModel) -> Result<(CivilDate, CivilDate), RemoteUsageError> {
    let rest = byte_len(query.start_date) + byte_len(query.end_date_exclusive) + byte_len(
        query.timezone,
    ) + byte_len(query.tzdb_revision);
    if query.tzdb_revision != REMOTE_TZDB_REVISION@ {
        Err(RemoteUsageError::IncompatibleTzdb)
    } else if query.clients.len() > MAX_CLIENTS {
        Err(RemoteUsageError::LimitExceeded)
    } else {
        match clients_bytes(query.clients) {
            Err(error) => Err(error),
            Ok(total) => if total + rest > MAX_QUERY_CLIENT_BYTES {
                Err(RemoteUsageError::LimitExceeded)
            } else if !is_ascending(query.clients) {
                Err(RemoteUsageError::InvalidQuery)
            } else {
                match (date_named(query.start_date), date_named(query.end_date_exclusive)) {
                    (Some(start), Some(end)) => if 1 <= end.day_number() - start.day_number()
                        <= MAX_RANGE_DAYS {
                        Ok((start, end))
                    } else {
                        Err(RemoteUsageError::InvalidQuery)
                    },
                    _ => Err(RemoteUsageError::InvalidQuery),
                }
            },
        }
    }
}

/// The date that a text names is the only one with that text.
pub proof fn lemma_date_named(text: Seq<char>, date: CivilDate)
    requires
        is_date_text(text, date),
    ensures
        date_named(text) == Some(date),
{
    lemma_date_text_injective(date, date_named(text)->0);
}

/// Adds the bytes of a text to a sum that stays below the limit of a query.
fn add_query_bytes(total: usize, value: &str) -> (sum: Option<usize>)
    requires
        total <= MAX_QUERY_CLIENT_BYTES,
    ensures
        match sum {
            Some(sum) => sum == total + byte_len(value@) && sum <= MAX_QUERY_CLIENT_BYTES,
            None => total + byte_len(value@) > MAX_QUERY_CLIENT_BYTES,
        },
{
    let bytes: usize = value.as_bytes().len();
    if bytes > MAX_QUERY_CLIENT_BYTES - total {
        None
    } else {
        Some(total + bytes)
    }
}

fn check_clients(clients: &Vec<String>) -> (total: Result<usize, RemoteUsageError>)
    ensures
        match total {
            Ok(total) => clients_bytes(clients@.map_values(|client: String| client@)) == Ok::<
                int,
                RemoteUsageError,
            >(total as int) && total <= MAX_QUERY_CLIENT_BYTES,
            Err(error) => clients_bytes(clients@.map_values(|client: String| client@)) == Err::<
                int,
                RemoteUsageError,
            >(error),
        },
        (forall|i: int|
            0 <= i < clients@.len() ==> is_plain_text((#[trigger] clients@[i])@, false)) ==> total
            != Err::<usize, RemoteUsageError>(RemoteUsageError::InvalidText),
{
    let ghost texts = clients@.map_values(|client: String| client@);
    let mut total: usize = 0;
    let mut i: usize = 0;
    while i < clients.len()
        invariant
            i <= clients@.len(),
            texts == clients@.map_values(|client: String| client@),
            total <= MAX_QUERY_CLIENT_BYTES,
            clients_bytes(texts.take(i as int)) == Ok::<int, RemoteUsageError>(total as int),
        decreases clients@.len() - i,
    {
        proof {
            assert(texts.take(i + 1).drop_last() =~= texts.take(i as int));
            assert(texts.take(i + 1).last() == clients@[i as int]@);
        }
        let checked = match validate_text(clients[i].as_str(), false) {
            Err(error) => Err(error),
            Ok(()) => match add_query_bytes(total, clients[i].as_str()) {
                Some(sum) => Ok(sum),
                None => Err(RemoteUsageError::LimitExceeded),
            },
        };
        match checked {
            Ok(sum) => {
                total = sum;
            },
            Err(error) => {
                proof {
                    lemma_clients_error(texts, i as int + 1, error);
                }
                return Err(error);
            },
        }
        i = i + 1;
    }
    assert(texts.take(i as int) =~= texts);
    Ok(total)
}

proof fn lemma_clients_error(clients: Seq<Seq<char>>, at: int, error: RemoteUsageError)
    requires
        0 <= at <= clients.len(),
        clients_bytes(clients.take(at)) == Err::<int, RemoteUsageError>(error),
    ensures
        clients_bytes(clients) == Err::<int, RemoteUsageError>(error),
    decreases clients.len() - at,
{
    if at < clients.len() {
        assert(clients.take(at + 1).drop_last() =~= clients.take(at));
        lemma_clients_error(clients, at + 1, error);
    } else {
        assert(clients.take(at) =~= clients);
    }
}

fn clients_ascend(clients: &Vec<String>) -> (ascending: bool)
    ensures
        ascending == is_ascending(clients@.map_values(|client: String| client@)),
{
    let ghost texts = clients@.map_values(|client: String| client@);
    let mut i: usize = 0;
    while i < clients.len() && i + 1 < clients.len()
        invariant
            i <= clients@.len(),
            texts == clients@.map_values(|client: String| client@),
            forall|j: int|
                #![trigger texts[j]]
                0 <= j < i && j < texts.len() - 1 ==> text_before(texts[j], texts[j + 1]),
        decreases clients@.len() - i,
    {
        let ghost first = texts[i as int];
        let ghost second = texts[i + 1];
        match place_text(clients[i].as_str(), clients[i + 1].as_str()) {
            Place::Before => {},
            _ => {
                proof {
                    lemma_bytes_irreflexive(encode_utf8(first));
                    if text_before(first, second) {
                        if first != second {
                            lemma_bytes_transitive(
                                encode_utf8(first),
                                encode_utf8(second),
                                encode_utf8(first),
                            );
                        }
                    }
                }
                return false;
            },
        }
        i = i + 1;
    }
    true
}

/// Checks a query and reads its dates.
pub fn validate_query(query: &RemoteUsageQueryV1) -> (dates: Result<
    (CivilDate, CivilDate),
    RemoteUsageError,
>)
    ensures
        dates == query_dates(query@),
        dates matches Ok((start, end)) ==> start.valid() && end.valid(),
        (forall|i: int|
            0 <= i < query@.clients.len() ==> is_plain_text(#[trigger] query@.clients[i], false))
            ==> dates != Err::<(CivilDate, CivilDate), RemoteUsageError>(
            RemoteUsageError::InvalidText,
        ),
{
    if !same_text(query.tzdb_revision.as_str(), REMOTE_TZDB_REVISION) {
        return Err(RemoteUsageError::IncompatibleTzdb);
    }
    if query.clients.len() > MAX_CLIENTS {
        return Err(RemoteUsageError::LimitExceeded);
    }
    proof {
        let texts = query@.clients;
        if forall|i: int| 0 <= i < texts.len() ==> is_plain_text(#[trigger] texts[i], false) {
            assert forall|i: int| 0 <= i < query.clients@.len() implies is_plain_text(
                (#[trigger] query.clients@[i])@,
                false,
            ) by {
                assert(texts[i] == query.clients@[i]@);
            }
        }
    }
    let total: usize = match check_clients(&query.clients) {
        Ok(total) => total,
        Err(error) => return Err(error),
    };
    let total: usize = match add_query_bytes(total, query.start_date.as_str()) {
        Some(total) => total,
        None => return Err(RemoteUsageError::LimitExceeded),
    };
    let total: usize = match add_query_bytes(total, query.end_date_exclusive.as_str()) {
        Some(total) => total,
        None => return Err(RemoteUsageError::LimitExceeded),
    };
    let total: usize = match add_query_bytes(total, query.timezone.as_str()) {
        Some(total) => total,
        None => return Err(RemoteUsageError::LimitExceeded),
    };
    if add_query_bytes(total, query.tzdb_revision.as_str()).is_none() {
        return Err(RemoteUsageError::LimitExceeded);
    }
    if !clients_ascend(&query.clients) {
        return Err(RemoteUsageError::InvalidQuery);
    }
    let start = match parse_date(query.start_date.as_str()) {
        Ok(start) => start,
        Err(error) => return Err(error),
    };
    let end = match parse_date(query.end_date_exclusive.as_str()) {
        Ok(end) => end,
        Err(error) => return Err(error),
    };
    proof {
        lemma_date_named(query.start_date@, start);
        lemma_date_named(query.end_date_exclusive@, end);
    }
    match days_until(start, end) {
        Ok(days) => if 1 <= days && days <= MAX_RANGE_DAYS {
            Ok((start, end))
        } else {
            Err(RemoteUsageError::InvalidQuery)
        },
        Err(_) => Err(RemoteUsageError::InvalidQuery),
    }
}

// ---------------------------------------------------------------------------
// Time zones
// ---------------------------------------------------------------------------
/// What a report makes of the entry that the database has for a time zone: it takes only an
/// entry under the very name, and only from the right release of the database.
pub open spec fn zone_entry(
    name: Seq<char>,
    entry: Option<(Seq<char>, Seq<u8>)>,
    version: Option<Seq<char>>,
) -> Result<Seq<u8>, RemoteUsageError> {
    match entry {
        None => Err(RemoteUsageError::InvalidTimeZone),
        Some((canonical, data)) => if version != Some(REMOTE_TZDB_REVISION@) {
            Err(RemoteUsageError::IncompatibleTzdb)
        } else if canonical != name {
            Err(RemoteUsageError::InvalidTimeZone)
        } else {
            Ok(data)
        },
    }
}

/// Decides on the entry that the database has for a time zone.
pub fn accept_zone_entry<'a>(
    name: &str,
    entry: Option<(&str, &'a [u8])>,
    version: Option<&str>,
) -> (data: Result<&'a [u8], RemoteUsageError>)
    ensures
        match data {
            Ok(data) => zone_entry(
                name@,
                (match entry {
                    Some((canonical, data)) => Some((canonical@, data@)),
                    None => None,
                }),
                (match version {
                    Some(version) => Some(version@),
                    None => None,
                }),
            ) == Ok::<Seq<u8>, RemoteUsageError>(data@),
            Err(error) => zone_entry(
                name@,
                (match entry {
                    Some((canonical, data)) => Some((canonical@, data@)),
                    None => None,
                }),
                (match version {
                    Some(version) => Some(version@),
                    None => None,
                }),
            ) == Err::<Seq<u8>, RemoteUsageError>(error),
        },
{
    let (canonical, data) = match entry {
        Some(entry) => entry,
        None => return Err(RemoteUsageError::InvalidTimeZone),
    };
    let current = match version {
        Some(version) => same_text(version, REMOTE_TZDB_REVISION),
        None => false,
    };
    if !current {
        return Err(RemoteUsageError::IncompatibleTzdb);
    }
    if !same_text(canonical, name) {
        return Err(RemoteUsageError::InvalidTimeZone);
    }
    Ok(data)
}

/// The TZif data that a report uses for a time zone. The name is a valid text, under which the
/// database has data that can be read.
pub open spec fn query_zone(name: Seq<char>) -> Result<Seq<u8>, RemoteUsageError> {
    if !is_valid_text(name, false) {
        Err(RemoteUsageError::InvalidTimeZone)
    } else {
        match zone_entry(name, tzdb_entry(name), Some(REMOTE_TZDB_REVISION@)) {
            Err(error) => Err(error),
            Ok(data) => if is_tzif(data) {
                Ok(data)
            } else {
                Err(RemoteUsageError::InvalidTimeZone)
            },
        }
    }
}

/// Finds the time zone of a query in the bundled database.
pub(crate) fn bundled_timezone(query: &RemoteUsageQueryV1) -> (zone: Result<TimeZone, RemoteUsageError>)
    ensures
        match zone {
            Ok(zone) => query_zone(query@.timezone) == Ok::<Seq<u8>, RemoteUsageError>(
                zone_data(zone),
            ),
            Err(error) => query_zone(query@.timezone) == Err::<Seq<u8>, RemoteUsageError>(error),
        },
{
    let name = query.timezone.as_str();
    if validate_text(name, false).is_err() {
        return Err(RemoteUsageError::InvalidTimeZone);
    }
    let data = match accept_zone_entry(name, tzdb_get(name), tzdb_version()) {
        Ok(data) => data,
        Err(error) => return Err(error),
    };
    match read_zone(name, data) {
        Ok(zone) => Ok(zone),
        Err(_) => Err(RemoteUsageError::InvalidTimeZone),
    }
}

} // verus!
