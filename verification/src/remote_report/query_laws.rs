//! What holds of every query, and when there is a report.
use vstd::prelude::*;
use vstd::utf8::*;

use crate::calendar::{is_tzif, tzdb_entry, CivilDate};
use crate::ordered::text_before;
use crate::remote_report::error::RemoteUsageError;
use crate::remote_report::fold::{
    entries_on, exact_clients_of, finished, fold_of, records_on, report_of, step, steps,
    BundleModel, FoldModel, PageKind,
};
use crate::remote_report::laws::{
    all_in_order, kept_by, kept_bytes, lemma_page_exists, lemma_steps_in_order, page_in, picked,
    reading, sum_of,
};
use crate::remote_report::message::{Kept, ReportModel};
use crate::remote_report::pages::{
    has_key, lemma_absent_key, overflowing, records_bytes, totals_of, RecordModel,
};
use crate::remote_report::query::{
    clients_bytes, date_named, is_date_text, is_valid_text, lemma_date_named, query_dates,
    query_zone, zone_entry, QueryModel,
};

verus! {

// ---------------------------------------------------------------------------
// Queries
// ---------------------------------------------------------------------------
/// A text names a date exactly where it is the text of that date, in a year that is not
/// negative.
pub proof fn lemma_texts_name_dates(text: Seq<char>, date: CivilDate)
    ensures
        date_named(text) == Some(date) <==> date.valid() && date.year >= 0 && date.text() == text,
{
    if is_date_text(text, date) {
        lemma_date_named(text, date);
    }
}

/// The bytes of a text.
pub open spec fn text_size() -> spec_fn(Seq<char>) -> nat {
    |text: Seq<char>| encode_utf8(text).len()
}

/// Whether every client of a list is a text that a query takes: not empty, of at most 255 bytes
/// and in Normalization Form C.
pub open spec fn all_taken(clients: Seq<Seq<char>>) -> bool {
    forall|i: int| 0 <= i < clients.len() ==> is_valid_text(#[trigger] clients[i], false)
}

proof fn lemma_clients_bytes(clients: Seq<Seq<char>>)
    ensures
        match clients_bytes(clients) {
            Ok(total) => all_taken(clients) && total == sum_of(clients, text_size()) && total
                <= 16_384,
            Err(RemoteUsageError::InvalidText) => !all_taken(clients),
            Err(RemoteUsageError::LimitExceeded) => sum_of(clients, text_size()) > 16_384,
            Err(_) => false,
        },
    decreases clients.len(),
{
    if clients.len() > 0 {
        let before = clients.drop_last();
        lemma_clients_bytes(before);
        assert(clients[clients.len() - 1] == clients.last());
        assert forall|i: int| 0 <= i < before.len() implies before[i] == clients[i] by {}
    }
}

/// The bytes of all texts of a query together.
pub open spec fn query_size(query: QueryModel) -> nat {
    sum_of(query.clients, text_size()) + encode_utf8(query.start_date).len() + encode_utf8(
        query.end_date_exclusive,
    ).len() + encode_utf8(query.timezone).len() + encode_utf8(query.tzdb_revision).len()
}

/// Whether the clients of a query are in ascending order, each once.
pub open spec fn clients_in_order(query: QueryModel) -> bool {
    forall|i: int|
        #![trigger query.clients[i]]
        0 <= i < query.clients.len() - 1 ==> text_before(query.clients[i], query.clients[i + 1])
}

/// Whether a query asks for a range of dates: one day at least and 370 at most.
pub open spec fn asks_for(query: QueryModel, start: CivilDate, end: CivilDate) -> bool {
    &&& date_named(query.start_date) == Some(start)
    &&& date_named(query.end_date_exclusive) == Some(end)
    &&& start.day_number() < end.day_number() <= start.day_number() + 370
}

/// A query is taken exactly where it is for the right release of the time zone database, has at
/// most 128 clients, which are texts that it takes and in order, has at most 16,384 bytes, and
/// asks for a range of dates. It then gives these dates.
pub proof fn lemma_queries_that_are_taken(query: QueryModel)
    ensures
        match query_dates(query) {
            Ok((start, end)) => {
                &&& query.tzdb_revision == "2026c"@
                &&& query.clients.len() <= 128
                &&& all_taken(query.clients)
                &&& query_size(query) <= 16_384
                &&& clients_in_order(query)
                &&& asks_for(query, start, end)
            },
            Err(error) => {
                ||| query.tzdb_revision != "2026c"@ && error == RemoteUsageError::IncompatibleTzdb
                ||| query.clients.len() > 128 && error == RemoteUsageError::LimitExceeded
                ||| !all_taken(query.clients) && error == RemoteUsageError::InvalidText
                ||| query_size(query) > 16_384 && error == RemoteUsageError::LimitExceeded
                ||| !clients_in_order(query) && error == RemoteUsageError::InvalidQuery
                ||| error == RemoteUsageError::InvalidQuery && forall|
                    start: CivilDate,
                    end: CivilDate,
                | !#[trigger] asks_for(query, start, end)
            },
        },
        query.tzdb_revision != "2026c"@ ==> query_dates(query) == Err::<
            (CivilDate, CivilDate),
            RemoteUsageError,
        >(RemoteUsageError::IncompatibleTzdb),
        query.tzdb_revision == "2026c"@ && query.clients.len() > 128 ==> query_dates(query)
            == Err::<(CivilDate, CivilDate), RemoteUsageError>(RemoteUsageError::LimitExceeded),
{
    lemma_clients_bytes(query.clients);
}

/// A query without clients asks for all, and another for the clients that it names.
pub proof fn lemma_clients_that_are_asked_for(query: QueryModel)
    ensures
        exact_clients_of(query) is None <==> query.clients.len() == 0,
        query.clients.len() > 0 ==> exact_clients_of(query) == Some(query.clients),
{
}

/// Whether an entry stands under a name.
pub open spec fn is_under_name(name: Seq<char>, entry: Option<(Seq<char>, Seq<u8>)>) -> bool {
    match entry {
        Some((found, _)) => found == name,
        None => false,
    }
}

/// A time zone is taken where its name is a text that a report takes, the database has readable
/// data under that very name, and the database is of the right release.
pub proof fn lemma_zones_that_are_taken(
    name: Seq<char>,
    entry: Option<(Seq<char>, Seq<u8>)>,
    version: Option<Seq<char>>,
)
    ensures
        match zone_entry(name, entry, version) {
            Ok(data) => entry == Some((name, data)) && version == Some("2026c"@),
            Err(RemoteUsageError::IncompatibleTzdb) => entry is Some && version != Some("2026c"@),
            Err(error) => error == RemoteUsageError::InvalidTimeZone && (entry is None || version
                == Some("2026c"@) && !is_under_name(name, entry)),
        },
        match query_zone(name) {
            Ok(data) => is_valid_text(name, false) && tzdb_entry(name) == Some((name, data))
                && is_tzif(data),
            Err(error) => error == RemoteUsageError::InvalidTimeZone && forall|data: Seq<u8>|
                !(is_valid_text(name, false) && tzdb_entry(name) == Some((name, data))
                    && #[trigger] is_tzif(data)),
        },
{
}

/// A fold that starts has the dates and the time zone of its query, and has read nothing.
pub proof fn lemma_folds_start_empty(query: QueryModel)
    ensures
        match fold_of(query) {
            Ok(fold) => {
                &&& query_dates(query) == Ok::<(CivilDate, CivilDate), RemoteUsageError>(
                    (fold.start_date, fold.end_date_exclusive),
                )
                &&& query_zone(query.timezone) == Ok::<Seq<u8>, RemoteUsageError>(fold.zone)
                &&& fold.messages == 0
                &&& fold.label_bytes == 0
                &&& fold.kept.len() == 0
            },
            Err(error) => query_dates(query) == Err::<(CivilDate, CivilDate), RemoteUsageError>(
                error,
            ) || query_dates(query) is Ok && query_zone(query.timezone) == Err::<
                Seq<u8>,
                RemoteUsageError,
            >(error),
        },
{
}

// ---------------------------------------------------------------------------
// Reports
// ---------------------------------------------------------------------------
/// The bytes of the texts of a record.
pub open spec fn record_size() -> spec_fn(RecordModel) -> nat {
    |record: RecordModel|
        encode_utf8(record.key.label).len() + encode_utf8(record.key.client).len() + (
        match record.key.model {
            Some(model) => encode_utf8(model).len(),
            None => 0,
        }) + (match record.key.provider {
            Some(provider) => encode_utf8(provider).len(),
            None => 0,
        })
}

proof fn lemma_records_bytes(records: Seq<RecordModel>)
    ensures
        records_bytes(records) == sum_of(records, record_size()),
    decreases records.len(),
{
    if records.len() > 0 {
        lemma_records_bytes(records.drop_last());
    }
}

/// There is a report of kept messages exactly where the texts of every page have at most
/// 8,388,608 bytes.
pub proof fn lemma_pages_that_can_be_sent(kept: Seq<Kept>)
    ensures
        finished(kept) is Ok <==> forall|page: PageKind|
            sum_of(#[trigger] records_on(kept, page), record_size()) <= 8_388_608,
        finished(kept) matches Err(error) ==> error == RemoteUsageError::LimitExceeded,
        finished(kept) matches Ok(bundle) ==> forall|page: PageKind|
            #[trigger] page_in(bundle, page) == records_on(kept, page),
{
    lemma_records_bytes(records_on(kept, PageKind::Graph));
    lemma_records_bytes(records_on(kept, PageKind::Models));
    lemma_records_bytes(records_on(kept, PageKind::Hourly));
    lemma_records_bytes(records_on(kept, PageKind::Agents));
    if finished(kept) is Ok {
        assert forall|page: PageKind|
            sum_of(#[trigger] records_on(kept, page), record_size()) <= 8_388_608 by {
            match page {
                PageKind::Graph => {},
                PageKind::Models => {},
                PageKind::Hourly => {},
                PageKind::Agents => {},
            }
        }
    }
}

/// There is a report exactly where the query is taken, there are at most 262,144 messages, each
/// is in order, the labels of those that count have at most 8,388,608 bytes, and the pages can be
/// sent.
pub proof fn lemma_when_there_is_a_report(reports: Seq<ReportModel>, query: QueryModel)
    ensures
        report_of(reports, query) is Ok <==> {
            &&& fold_of(query) is Ok
            &&& reports.len() <= 262_144
            &&& forall|i: int|
                0 <= i < reports.len() ==> reading(
                    fold_of(query)->Ok_0.zone,
                    fold_of(query)->Ok_0.start_date,
                    fold_of(query)->Ok_0.end_date_exclusive,
                    #[trigger] reports[i],
                ) is Ok
            &&& sum_of(picked(reports, kept_by(fold_of(query)->Ok_0)), kept_bytes()) <= 8_388_608
            &&& finished(picked(reports, kept_by(fold_of(query)->Ok_0))) is Ok
        },
        fold_of(query) matches Err(error) ==> report_of(reports, query) == Err::<
            BundleModel,
            RemoteUsageError,
        >(error),
        fold_of(query) is Ok && reports.len() > 262_144 ==> report_of(reports, query) == Err::<
            BundleModel,
            RemoteUsageError,
        >(RemoteUsageError::LimitExceeded),
{
    if let Ok(fold) = fold_of(query) {
        lemma_steps_in_order(fold, reports);
    }
}

proof fn lemma_steps_keep_their_error(fold: FoldModel, reports: Seq<ReportModel>, at: int)
    requires
        0 <= at <= reports.len(),
        steps(fold, reports.take(at)).1 is Err,
    ensures
        steps(fold, reports).1 == steps(fold, reports.take(at)).1,
    decreases reports.len() - at,
{
    if at < reports.len() {
        assert(reports.take(at + 1).drop_last() =~= reports.take(at));
        lemma_steps_keep_their_error(fold, reports, at + 1);
    } else {
        assert(reports.take(at) =~= reports);
    }
}

/// The first message that is not in order decides on the error: where all messages before it
/// are read, there is no report, but the error of that message.
pub proof fn lemma_the_first_error_decides(
    reports: Seq<ReportModel>,
    query: QueryModel,
    at: int,
    error: RemoteUsageError,
)
    requires
        fold_of(query) is Ok,
        0 <= at < reports.len() <= 262_144,
        all_in_order(fold_of(query)->Ok_0, reports.take(at)),
        reading(
            fold_of(query)->Ok_0.zone,
            fold_of(query)->Ok_0.start_date,
            fold_of(query)->Ok_0.end_date_exclusive,
            reports[at],
        ) == Err::<Option<Kept>, RemoteUsageError>(error),
    ensures
        report_of(reports, query) == Err::<BundleModel, RemoteUsageError>(error),
{
    let fold = fold_of(query)->Ok_0;
    let before = reports.take(at);
    lemma_steps_in_order(fold, before);
    let upto = reports.take(at + 1);
    assert(upto.drop_last() =~= before);
    assert(upto.last() == reports[at]);
    let middle = steps(fold, before).0;
    assert(step(middle, reports[at]).1 == Err::<(), RemoteUsageError>(error));
    lemma_steps_keep_their_error(fold, reports, at + 1);
}

/// Whether a record shows a number that cannot grow.
pub open spec fn is_full(record: RecordModel) -> bool {
    ||| record.amounts.input_tokens == u64::MAX
    ||| record.amounts.output_tokens == u64::MAX
    ||| record.amounts.cache_read_tokens == u64::MAX
    ||| record.amounts.cache_write_tokens == u64::MAX
    ||| record.amounts.reasoning_tokens == u64::MAX
    ||| record.amounts.message_count == u64::MAX
    ||| record.amounts.turn_count == u64::MAX
    ||| record.amounts.cost_nano_usd == u64::MAX
    ||| record.amounts.duration_millis == u64::MAX
    ||| record.amounts.timed_tokens == u64::MAX
    ||| record.amounts.sample_count == u64::MAX
    ||| record.total_tokens == u64::MAX
}

proof fn lemma_cut_totals_are_full(kept: Seq<Kept>, page: PageKind) -> (at: int)
    requires
        overflowing(entries_on(kept, page)),
    ensures
        0 <= at < records_on(kept, page).len(),
        is_full(records_on(kept, page)[at]),
{
    let entries = entries_on(kept, page);
    let key = choose|key|
        #![trigger totals_of(entries, key)]
        totals_of(entries, key).exceeds() || totals_of(entries, key).token_sum() > u64::MAX;
    if !has_key(entries, key) {
        lemma_absent_key(entries, key);
    }
    let e = choose|e: int| 0 <= e < entries.len() && (#[trigger] entries[e]).0 == key;
    lemma_page_exists(entries);
    let records = records_on(kept, page);
    let at = choose|i: int| 0 <= i < records.len() && (#[trigger] records[i]).key == entries[e].0;
    assert(records[at].key == key);
    at
}

/// A report says that a total was cut only where a record shows a number that cannot grow.
pub proof fn lemma_saturated_reports_show_it(kept: Seq<Kept>, bundle: BundleModel) -> (place: (
    PageKind,
    int,
))
    requires
        finished(kept) == Ok::<BundleModel, RemoteUsageError>(bundle),
        bundle.saturated,
    ensures
        0 <= place.1 < page_in(bundle, place.0).len(),
        is_full(page_in(bundle, place.0)[place.1]),
{
    if overflowing(entries_on(kept, PageKind::Graph)) {
        (PageKind::Graph, lemma_cut_totals_are_full(kept, PageKind::Graph))
    } else if overflowing(entries_on(kept, PageKind::Models)) {
        (PageKind::Models, lemma_cut_totals_are_full(kept, PageKind::Models))
    } else if overflowing(entries_on(kept, PageKind::Hourly)) {
        (PageKind::Hourly, lemma_cut_totals_are_full(kept, PageKind::Hourly))
    } else {
        (PageKind::Agents, lemma_cut_totals_are_full(kept, PageKind::Agents))
    }
}

/// A message is read by itself: it counts as read whatever becomes of it, one that is not in order
/// or does not count leaves the kept ones as they are, and one that counts comes behind them.
pub proof fn lemma_a_step_reads_one_message(fold: FoldModel, report: ReportModel)
    requires
        fold.messages < 262_144,
    ensures
        ({
            let (after, read) = step(fold, report);
            let outcome = reading(fold.zone, fold.start_date, fold.end_date_exclusive, report);
            &&& after.messages == fold.messages + 1
            &&& after.zone == fold.zone
            &&& after.start_date == fold.start_date
            &&& after.end_date_exclusive == fold.end_date_exclusive
            &&& outcome matches Err(error) ==> read == Err::<(), RemoteUsageError>(error)
                && after.kept == fold.kept
            &&& outcome == Ok::<Option<Kept>, RemoteUsageError>(None) ==> read == Ok::<
                (),
                RemoteUsageError,
            >(()) && after.kept == fold.kept
            &&& outcome matches Ok(Some(kept)) ==> read is Ok && after.kept == fold.kept.push(kept)
                || read == Err::<(), RemoteUsageError>(RemoteUsageError::LimitExceeded)
                && after.kept == fold.kept
        }),
{
}

/// A fold that has read 262,144 messages reads no more.
pub proof fn lemma_full_folds_read_no_more(fold: FoldModel, report: ReportModel)
    requires
        fold.messages >= 262_144,
    ensures
        step(fold, report).1 == Err::<(), RemoteUsageError>(RemoteUsageError::LimitExceeded),
        step(fold, report).0.kept == fold.kept,
{
}

} // verus!
