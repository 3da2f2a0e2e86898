//! What holds of every report.
use vstd::multiset::Multiset;
use vstd::prelude::*;
use vstd::seq_lib::*;

use crate::calendar::CivilDate;
use crate::ordered::{text_before, Ordered};
use crate::remote_report::error::{RemoteUsageError, MAX_LABEL_BYTES, MAX_MESSAGES};
use crate::remote_report::fold::{
    amounts_on, charge, entries_on, finished, fold_of, key_on, labels_of, records_on, report_of,
    some_total_capped, steps, BundleModel, FoldModel, PageKind, RemoteAgentsRecordV1,
    RemoteGraphRecordV1, RemoteHourlyRecordV1, RemoteModelsRecordV1,
};
use crate::remote_report::message::{message_time, prepared, Kept, ReportModel};
use crate::remote_report::pages::{
    capped, has_key, key_before, lemma_entry_added, lemma_key_total, lemma_page_determined,
    overflowing, page_of, page_records, totals_of, Amounts, KeyModel, RecordKey, RecordModel,
    Totals,
};
use crate::remote_report::query::{byte_len, QueryModel};

verus! {

// ---------------------------------------------------------------------------
// What a report reads
// ---------------------------------------------------------------------------
/// Whether two messages agree on what a report reads of them.
pub open spec fn same_reported_fields(a: ReportModel, b: ReportModel) -> bool {
    &&& a.message.client == b.message.client
    &&& a.message.model_id == b.message.model_id
    &&& a.message.provider_id == b.message.provider_id
    &&& a.message.agent == b.message.agent
    &&& a.message.timestamp == b.message.timestamp
    &&& a.message.tokens.input == b.message.tokens.input
    &&& a.message.tokens.output == b.message.tokens.output
    &&& a.message.tokens.cache_read == b.message.tokens.cache_read
    &&& a.message.tokens.cache_write == b.message.tokens.cache_write
    &&& a.message.tokens.reasoning == b.message.tokens.reasoning
    &&& a.message.message_count == b.message.message_count
    &&& a.message.is_turn_start == b.message.is_turn_start
    &&& a.message.duration_ms == b.message.duration_ms
    &&& a.selected == b.selected
    &&& a.canonical_model == b.canonical_model
    &&& a.agent_name == b.agent_name
    &&& a.copilot_agent_name == b.copilot_agent_name
    &&& a.cost_nano_usd == b.cost_nano_usd
}

proof fn lemma_steps_of_same_fields(
    fold: FoldModel,
    first: Seq<ReportModel>,
    second: Seq<ReportModel>,
)
    requires
        first.len() == second.len(),
        forall|i: int|
            0 <= i < first.len() ==> same_reported_fields(
                #[trigger] first[i],
                #[trigger] second[i],
            ),
    ensures
        steps(fold, first) == steps(fold, second),
    decreases first.len(),
{
    if first.len() > 0 {
        let earlier = first.drop_last();
        let others = second.drop_last();
        assert forall|i: int| 0 <= i < earlier.len() implies same_reported_fields(
            #[trigger] earlier[i],
            #[trigger] others[i],
        ) by {
            assert(same_reported_fields(first[i], second[i]));
        }
        lemma_steps_of_same_fields(fold, earlier, others);
        assert(same_reported_fields(first[first.len() - 1], second[first.len() - 1]));
    }
}

/// Sessions, workspaces, keys, dates and price origins do not reach a report: messages that
/// agree on the fields that it reads give the same report.
pub proof fn lemma_only_reported_fields_count(
    first: Seq<ReportModel>,
    second: Seq<ReportModel>,
    query: QueryModel,
)
    requires
        first.len() == second.len(),
        forall|i: int|
            0 <= i < first.len() ==> same_reported_fields(
                #[trigger] first[i],
                #[trigger] second[i],
            ),
    ensures
        report_of(first, query) == report_of(second, query),
{
    if let Ok(fold) = fold_of(query) {
        lemma_steps_of_same_fields(fold, first, second);
    }
}

// ---------------------------------------------------------------------------
// Order
// ---------------------------------------------------------------------------
/// What a partial function makes of a list, in its order.
pub open spec fn picked<A, B>(list: Seq<A>, pick: spec_fn(A) -> Option<B>) -> Seq<B>
    decreases list.len(),
{
    if list.len() == 0 {
        Seq::empty()
    } else {
        let earlier = picked(list.drop_last(), pick);
        match pick(list.last()) {
            Some(item) => earlier.push(item),
            None => earlier,
        }
    }
}

/// An optional item as a multiset.
pub open spec fn optional_item<B>(item: Option<B>) -> Multiset<B> {
    match item {
        Some(item) => Multiset::singleton(item),
        None => Multiset::empty(),
    }
}

proof fn lemma_picked_without<A, B>(list: Seq<A>, pick: spec_fn(A) -> Option<B>, at: int)
    requires
        0 <= at < list.len(),
    ensures
        picked(list, pick).to_multiset() =~= picked(list.remove(at), pick).to_multiset().add(
            optional_item(pick(list[at])),
        ),
    decreases list.len(),
{
    broadcast use {to_multiset_build, vstd::multiset::group_multiset_axioms};

    let rest = list.remove(at);
    if at == list.len() - 1 {
        assert(rest =~= list.drop_last());
    } else {
        lemma_picked_without(list.drop_last(), pick, at);
        assert(rest.drop_last() =~= list.drop_last().remove(at));
        assert(rest.last() == list.last());
        assert(list.drop_last()[at] == list[at]);
    }
}

proof fn lemma_picked_permuted<A, B>(first: Seq<A>, second: Seq<A>, pick: spec_fn(A) -> Option<B>)
    requires
        first.to_multiset() == second.to_multiset(),
    ensures
        picked(first, pick).to_multiset() == picked(second, pick).to_multiset(),
    decreases first.len(),
{
    broadcast use {
        to_multiset_remove,
        to_multiset_contains,
        vstd::multiset::group_multiset_axioms,
    };

    to_multiset_len(first);
    to_multiset_len(second);
    if first.len() > 0 {
        let last = first.len() - 1;
        let item = first[last];
        assert(first.contains(item));
        assert(second.to_multiset().count(item) > 0);
        assert(second.contains(item));
        let at = second.index_of(item);
        lemma_picked_without(first, pick, last);
        lemma_picked_without(second, pick, at);
        lemma_picked_permuted(first.remove(last), second.remove(at), pick);
    } else {
        assert(first =~= second);
    }
}

proof fn lemma_totals_without(entries: Seq<(KeyModel, Amounts)>, key: KeyModel, at: int)
    requires
        0 <= at < entries.len(),
    ensures
        totals_of(entries, key) == (if entries[at].0 == key {
            totals_of(entries.remove(at), key).plus(entries[at].1)
        } else {
            totals_of(entries.remove(at), key)
        }),
    decreases entries.len(),
{
    let rest = entries.remove(at);
    if at == entries.len() - 1 {
        assert(rest =~= entries.drop_last());
    } else {
        lemma_totals_without(entries.drop_last(), key, at);
        assert(rest.drop_last() =~= entries.drop_last().remove(at));
        assert(rest.last() == entries.last());
        assert(entries.drop_last()[at] == entries[at]);
    }
}

proof fn lemma_totals_permuted(
    first: Seq<(KeyModel, Amounts)>,
    second: Seq<(KeyModel, Amounts)>,
    key: KeyModel,
)
    requires
        first.to_multiset() == second.to_multiset(),
    ensures
        totals_of(first, key) == totals_of(second, key),
        has_key(first, key) ==> has_key(second, key),
    decreases first.len(),
{
    broadcast use {
        to_multiset_remove,
        to_multiset_contains,
        vstd::multiset::group_multiset_axioms,
    };

    to_multiset_len(first);
    to_multiset_len(second);
    if first.len() > 0 {
        let last = first.len() - 1;
        let item = first[last];
        assert(first.contains(item));
        assert(second.to_multiset().count(item) > 0);
        assert(second.contains(item));
        let at = second.index_of(item);
        lemma_totals_without(first, key, last);
        lemma_totals_without(second, key, at);
        lemma_totals_permuted(first.remove(last), second.remove(at), key);
    }
    if has_key(first, key) {
        let i = choose|i: int| 0 <= i < first.len() && (#[trigger] first[i]).0 == key;
        assert(first.contains(first[i]));
        assert(second.to_multiset().count(first[i]) > 0);
        assert(second.contains(first[i]));
        let j = second.index_of(first[i]);
        assert(second[j].0 == key);
    }
}

/// Every list of entries makes a page.
pub proof fn lemma_page_exists(entries: Seq<(KeyModel, Amounts)>)
    ensures
        page_records(page_of(entries), entries),
    decreases entries.len(),
{
    let records = lemma_page_built(entries);
    assert(page_records(records, entries));
}

/// A page for the entries, made by adding them one by one.
proof fn lemma_page_built(entries: Seq<(KeyModel, Amounts)>) -> (records: Seq<RecordModel>)
    ensures
        page_records(records, entries),
    decreases entries.len(),
{
    if entries.len() == 0 {
        Seq::empty()
    } else {
        let before = entries.drop_last();
        let earlier = lemma_page_built(before);
        let key = entries.last().0;
        assert(entries[entries.len() - 1].0 == key);
        assert forall|i: int| 0 <= i < before.len() implies before[i] == entries[i] by {}
        if has_key(before, key) {
            lemma_record_updated(earlier, before, entries)
        } else {
            lemma_record_inserted(earlier, before, entries)
        }
    }
}

spec fn record_for(entries: Seq<(KeyModel, Amounts)>, key: KeyModel) -> RecordModel {
    RecordModel {
        key,
        amounts: totals_of(entries, key).capped(),
        total_tokens: capped(totals_of(entries, key).token_sum()),
    }
}

proof fn lemma_record_updated(
    earlier: Seq<RecordModel>,
    before: Seq<(KeyModel, Amounts)>,
    entries: Seq<(KeyModel, Amounts)>,
) -> (records: Seq<RecordModel>)
    requires
        entries.len() > 0,
        before == entries.drop_last(),
        page_records(earlier, before),
        has_key(before, entries.last().0),
    ensures
        page_records(records, entries),
{
    let key = entries.last().0;
    let records = Seq::new(earlier.len(), |i: int| record_for(entries, earlier[i].key));
    assert forall|i: int| 0 <= i < records.len() implies has_key(
        entries,
        (#[trigger] records[i]).key,
    ) by {
        assert(has_key(before, earlier[i].key));
        let e = choose|e: int| 0 <= e < before.len() && (#[trigger] before[e]).0 == earlier[i].key;
        assert(entries[e].0 == earlier[i].key);
    }
    assert forall|at: int| 0 <= at < entries.len() implies exists|i: int|
        0 <= i < records.len() && (#[trigger] records[i]).key == (#[trigger] entries[at]).0 by {
        let origin = if at < before.len() {
            at
        } else {
            choose|e: int| 0 <= e < before.len() && (#[trigger] before[e]).0 == key
        };
        assert(before[origin].0 == entries[at].0);
        let i = choose|i: int|
            0 <= i < earlier.len() && (#[trigger] earlier[i]).key == before[origin].0;
        assert(records[i].key == entries[at].0);
    }
    records
}

/// A position such that every earlier record comes before a key, and every later one behind it.
proof fn lemma_place_for(earlier: Seq<RecordModel>, key: KeyModel, upto: int) -> (at: int)
    requires
        0 <= upto <= earlier.len(),
        forall|i: int, j: int|
            0 <= i < j < earlier.len() ==> key_before(
                (#[trigger] earlier[i]).key,
                (#[trigger] earlier[j]).key,
            ),
        forall|i: int| 0 <= i < earlier.len() ==> (#[trigger] earlier[i]).key != key,
        forall|i: int| upto <= i < earlier.len() ==> key_before(key, (#[trigger] earlier[i]).key),
    ensures
        0 <= at <= earlier.len(),
        forall|i: int| 0 <= i < at ==> key_before((#[trigger] earlier[i]).key, key),
        forall|i: int| at <= i < earlier.len() ==> key_before(key, (#[trigger] earlier[i]).key),
    decreases upto,
{
    if upto == 0 {
        0
    } else {
        let last = earlier[upto - 1].key;
        lemma_key_total(last, key);
        if key_before(last, key) {
            assert forall|i: int| 0 <= i < upto implies key_before(
                (#[trigger] earlier[i]).key,
                key,
            ) by {
                if i < upto - 1 {
                    RecordKey::transitive(earlier[i].key, last, key);
                }
            }
            upto
        } else {
            lemma_place_for(earlier, key, upto - 1)
        }
    }
}

proof fn lemma_record_inserted(
    earlier: Seq<RecordModel>,
    before: Seq<(KeyModel, Amounts)>,
    entries: Seq<(KeyModel, Amounts)>,
) -> (records: Seq<RecordModel>)
    requires
        entries.len() > 0,
        before == entries.drop_last(),
        page_records(earlier, before),
        !has_key(before, entries.last().0),
    ensures
        page_records(records, entries),
{
    let key = entries.last().0;
    assert(entries[entries.len() - 1].0 == key);
    assert forall|i: int| 0 <= i < earlier.len() implies (#[trigger] earlier[i]).key != key by {
        assert(has_key(before, earlier[i].key));
    }
    let at = lemma_place_for(earlier, key, earlier.len() as int);
    let records = earlier.insert(at, record_for(entries, key));
    assert forall|i: int, j: int| 0 <= i < j < records.len() implies key_before(
        (#[trigger] records[i]).key,
        (#[trigger] records[j]).key,
    ) by {
        let from = if i < at { i } else { i - 1 };
        let to = if j < at { j } else { j - 1 };
        assert(i != at ==> records[i] == earlier[from]);
        assert(j != at ==> records[j] == earlier[to]);
    }
    assert forall|i: int| 0 <= i < records.len() implies {
        &&& has_key(entries, (#[trigger] records[i]).key)
        &&& records[i] == record_for(entries, records[i].key)
    } by {
        if i != at {
            let from = if i < at { i } else { i - 1 };
            assert(records[i] == earlier[from]);
            assert(has_key(before, earlier[from].key));
            let e = choose|e: int|
                0 <= e < before.len() && (#[trigger] before[e]).0 == earlier[from].key;
            assert(entries[e].0 == earlier[from].key);
            assert(earlier[from].key != key);
        }
    }
    assert forall|e: int| 0 <= e < entries.len() implies exists|i: int|
        0 <= i < records.len() && (#[trigger] records[i]).key == (#[trigger] entries[e]).0 by {
        if e < before.len() {
            assert(before[e] == entries[e]);
            let i = choose|i: int|
                0 <= i < earlier.len() && (#[trigger] earlier[i]).key == before[e].0;
            let moved = if i < at { i } else { i + 1 };
            assert(records[moved].key == entries[e].0);
        } else {
            assert(records[at].key == entries[e].0);
        }
    }
    records
}

/// The sum of a number over a list.
pub open spec fn sum_of<A>(list: Seq<A>, number: spec_fn(A) -> nat) -> nat
    decreases list.len(),
{
    if list.len() == 0 {
        0
    } else {
        sum_of(list.drop_last(), number) + number(list.last())
    }
}

proof fn lemma_sum_without<A>(list: Seq<A>, number: spec_fn(A) -> nat, at: int)
    requires
        0 <= at < list.len(),
    ensures
        sum_of(list, number) == sum_of(list.remove(at), number) + number(list[at]),
    decreases list.len(),
{
    let rest = list.remove(at);
    if at == list.len() - 1 {
        assert(rest =~= list.drop_last());
    } else {
        lemma_sum_without(list.drop_last(), number, at);
        assert(rest.drop_last() =~= list.drop_last().remove(at));
        assert(rest.last() == list.last());
        assert(list.drop_last()[at] == list[at]);
    }
}

proof fn lemma_sum_permuted<A>(first: Seq<A>, second: Seq<A>, number: spec_fn(A) -> nat)
    requires
        first.to_multiset() == second.to_multiset(),
    ensures
        sum_of(first, number) == sum_of(second, number),
    decreases first.len(),
{
    broadcast use {
        to_multiset_remove,
        to_multiset_contains,
        vstd::multiset::group_multiset_axioms,
    };

    to_multiset_len(first);
    to_multiset_len(second);
    if first.len() > 0 {
        let last = first.len() - 1;
        let item = first[last];
        assert(first.contains(item));
        assert(second.to_multiset().count(item) > 0);
        assert(second.contains(item));
        let at = second.index_of(item);
        lemma_sum_without(first, number, last);
        lemma_sum_without(second, number, at);
        lemma_sum_permuted(first.remove(last), second.remove(at), number);
    }
}

/// The bytes of labels.
pub open spec fn labels_bytes(labels: Seq<Seq<char>>) -> nat
    decreases labels.len(),
{
    if labels.len() == 0 {
        0
    } else {
        byte_len(labels[0]) as nat + labels_bytes(labels.drop_first())
    }
}

proof fn lemma_charge(total: nat, labels: Seq<Seq<char>>)
    requires
        total <= MAX_LABEL_BYTES,
    ensures
        charge(total, labels).1 <==> total + labels_bytes(labels) <= MAX_LABEL_BYTES,
        charge(total, labels).1 ==> charge(total, labels).0 == total + labels_bytes(labels),
    decreases labels.len(),
{
    if labels.len() > 0 {
        let sum = total + byte_len(labels[0]) as nat;
        if sum <= MAX_LABEL_BYTES {
            lemma_charge(sum, labels.drop_first());
        }
    }
}

/// What a report makes of a message, apart from the limits.
pub open spec fn reading(
    zone: Seq<u8>,
    start: CivilDate,
    end: CivilDate,
    report: ReportModel,
) -> Result<Option<Kept>, RemoteUsageError> {
    match message_time(zone, report.message.timestamp) {
        Err(error) => Err(error),
        Ok(time) => prepared(report, time, start, end),
    }
}

/// The message that a report counts, if it counts one.
pub open spec fn kept_by(fold: FoldModel) -> spec_fn(ReportModel) -> Option<Kept> {
    |report: ReportModel|
        match reading(fold.zone, fold.start_date, fold.end_date_exclusive, report) {
            Ok(kept) => kept,
            Err(_) => None,
        }
}

/// The bytes of a message's labels.
pub open spec fn kept_bytes() -> spec_fn(Kept) -> nat {
    |kept: Kept| labels_bytes(labels_of(kept))
}

/// Whether a fold that has read nothing reads all messages: each is in order, and they keep the
/// limits.
pub open spec fn all_in_order(fold: FoldModel, reports: Seq<ReportModel>) -> bool {
    &&& reports.len() <= MAX_MESSAGES
    &&& forall|i: int|
        0 <= i < reports.len() ==> reading(
            fold.zone,
            fold.start_date,
            fold.end_date_exclusive,
            #[trigger] reports[i],
        ) is Ok
    &&& sum_of(picked(reports, kept_by(fold)), kept_bytes()) <= MAX_LABEL_BYTES
}

/// A fold reads all messages exactly where each is in order and they keep the limits. It then
/// has kept those that count, in their order.
pub proof fn lemma_steps_in_order(fold: FoldModel, reports: Seq<ReportModel>)
    requires
        fold.messages == 0,
        fold.label_bytes == 0,
        fold.kept == Seq::<Kept>::empty(),
    ensures
        steps(fold, reports).1 is Ok <==> all_in_order(fold, reports),
        steps(fold, reports).1 is Ok ==> {
            let after = steps(fold, reports).0;
            &&& after.zone == fold.zone
            &&& after.start_date == fold.start_date
            &&& after.end_date_exclusive == fold.end_date_exclusive
            &&& after.messages == reports.len()
            &&& after.kept == picked(reports, kept_by(fold))
            &&& after.label_bytes == sum_of(picked(reports, kept_by(fold)), kept_bytes())
        },
    decreases reports.len(),
{
    if reports.len() > 0 {
        let before = reports.drop_last();
        let last = reports.last();
        lemma_steps_in_order(fold, before);
        assert forall|i: int| 0 <= i < before.len() implies before[i] == reports[i] by {}
        assert(reports[reports.len() - 1] == last);
        let earlier = picked(before, kept_by(fold));
        if let Some(kept) = kept_by(fold)(last) {
            assert(earlier.push(kept).drop_last() =~= earlier);
            assert(earlier.push(kept).last() == kept);
            let middle = steps(fold, before).0;
            if steps(fold, before).1 is Ok {
                lemma_charge(middle.label_bytes, labels_of(kept));
            }
        }
    }
}

/// The order of the messages does not matter: a report of the same messages in another order is
/// the same.
pub proof fn lemma_order_does_not_matter(
    first: Seq<ReportModel>,
    second: Seq<ReportModel>,
    query: QueryModel,
)
    requires
        first.to_multiset() == second.to_multiset(),
        report_of(first, query) is Ok,
    ensures
        report_of(second, query) == report_of(first, query),
{
    broadcast use {to_multiset_contains, vstd::multiset::group_multiset_axioms};

    let fold = fold_of(query)->Ok_0;
    to_multiset_len(first);
    to_multiset_len(second);
    lemma_steps_in_order(fold, first);
    lemma_steps_in_order(fold, second);
    let kept_first = picked(first, kept_by(fold));
    let kept_second = picked(second, kept_by(fold));
    lemma_picked_permuted(first, second, kept_by(fold));
    lemma_sum_permuted(kept_first, kept_second, kept_bytes());
    assert forall|i: int| 0 <= i < second.len() implies reading(
        fold.zone,
        fold.start_date,
        fold.end_date_exclusive,
        #[trigger] second[i],
    ) is Ok by {
        assert(second.contains(second[i]));
        assert(first.to_multiset().count(second[i]) > 0);
        assert(first.contains(second[i]));
        let j = first.index_of(second[i]);
        assert(first[j] == second[i]);
    }
    lemma_page_permuted(kept_first, kept_second, PageKind::Graph);
    lemma_page_permuted(kept_first, kept_second, PageKind::Models);
    lemma_page_permuted(kept_first, kept_second, PageKind::Hourly);
    lemma_page_permuted(kept_first, kept_second, PageKind::Agents);
}

/// Whether a report on a query counts a message.
pub open spec fn counts(query: QueryModel, report: ReportModel) -> bool {
    fold_of(query) matches Ok(fold) && kept_by(fold)(report) is Some
}

proof fn lemma_picked_of_filtered(
    fold: FoldModel,
    reports: Seq<ReportModel>,
    keep: spec_fn(ReportModel) -> bool,
)
    requires
        forall|report: ReportModel| kept_by(fold)(report) is Some ==> #[trigger] keep(report),
    ensures
        picked(reports.filter(keep), kept_by(fold)) == picked(reports, kept_by(fold)),
        reports.filter(keep).len() <= reports.len(),
        forall|i: int|
            0 <= i < reports.filter(keep).len() ==> reports.contains(
                #[trigger] reports.filter(keep)[i],
            ),
    decreases reports.len(),
{
    reveal(Seq::filter);
    if reports.len() > 0 {
        let before = reports.drop_last();
        let last = reports.last();
        let all = reports.filter(keep);
        let earlier = before.filter(keep);
        lemma_picked_of_filtered(fold, before, keep);
        assert(reports[reports.len() - 1] == last);
        assert forall|i: int| 0 <= i < all.len() implies reports.contains(#[trigger] all[i]) by {
            if i < earlier.len() {
                assert(all[i] == earlier[i]);
                let j = before.index_of(earlier[i]);
                assert(reports[j] == earlier[i]);
            }
        }
        if keep(last) {
            assert(all.drop_last() =~= earlier);
            assert(all.last() == last);
        }
    }
}

/// Messages that a report does not count do not matter: without some of them, or without all,
/// the report is the same.
pub proof fn lemma_messages_that_do_not_count_are_neutral(
    reports: Seq<ReportModel>,
    query: QueryModel,
    keep: spec_fn(ReportModel) -> bool,
)
    requires
        forall|report: ReportModel| counts(query, report) ==> #[trigger] keep(report),
        report_of(reports, query) is Ok,
    ensures
        report_of(reports.filter(keep), query) == report_of(reports, query),
{
    let fold = fold_of(query)->Ok_0;
    let left = reports.filter(keep);
    assert forall|report: ReportModel| kept_by(fold)(report) is Some implies #[trigger] keep(
        report,
    ) by {
        assert(counts(query, report));
    }
    lemma_picked_of_filtered(fold, reports, keep);
    lemma_steps_in_order(fold, reports);
    lemma_steps_in_order(fold, left);
    assert forall|i: int| 0 <= i < left.len() implies reading(
        fold.zone,
        fold.start_date,
        fold.end_date_exclusive,
        #[trigger] left[i],
    ) is Ok by {
        let j = reports.index_of(left[i]);
        assert(reports[j] == left[i]);
    }
}

proof fn lemma_entries_picked(kept: Seq<Kept>, page: PageKind)
    ensures
        entries_on(kept, page) == picked(
            kept,
            |message: Kept| Some((key_on(message, page), amounts_on(message, page))),
        ),
    decreases kept.len(),
{
    if kept.len() > 0 {
        lemma_entries_picked(kept.drop_last(), page);
        assert(entries_on(kept, page) =~= entries_on(kept.drop_last(), page).push(
            (key_on(kept.last(), page), amounts_on(kept.last(), page)),
        ));
    } else {
        assert(entries_on(kept, page) =~= Seq::empty());
    }
}

proof fn lemma_page_permuted(first: Seq<Kept>, second: Seq<Kept>, page: PageKind)
    requires
        first.to_multiset() == second.to_multiset(),
    ensures
        records_on(first, page) == records_on(second, page),
        overflowing(entries_on(first, page)) == overflowing(entries_on(second, page)),
{
    let pick = |message: Kept| Some((key_on(message, page), amounts_on(message, page)));
    lemma_entries_picked(first, page);
    lemma_entries_picked(second, page);
    lemma_picked_permuted(first, second, pick);
    let a = entries_on(first, page);
    let b = entries_on(second, page);
    assert forall|key: KeyModel| #[trigger] totals_of(a, key) == totals_of(b, key) && has_key(a, key)
        == has_key(b, key) by {
        lemma_totals_permuted(a, b, key);
        lemma_totals_permuted(b, a, key);
    }
    assert forall|key: KeyModel| #[trigger] totals_of(b, key) == totals_of(a, key) by {
        assert(totals_of(a, key) == totals_of(b, key));
    }
    lemma_page_exists(a);
    let records = page_of(a);
    assert forall|at: int| 0 <= at < b.len() implies exists|i: int|
        0 <= i < records.len() && (#[trigger] records[i]).key == (#[trigger] b[at]).0 by {
        let key = b[at].0;
        assert(has_key(b, key));
        assert(totals_of(a, key) == totals_of(b, key));
        assert(has_key(a, key));
        let e = choose|e: int| 0 <= e < a.len() && (#[trigger] a[e]).0 == key;
        let i = choose|i: int| 0 <= i < records.len() && (#[trigger] records[i]).key == a[e].0;
        assert(records[i].key == b[at].0);
    }
    assert forall|i: int| 0 <= i < records.len() implies has_key(
        b,
        (#[trigger] records[i]).key,
    ) by {
        assert(has_key(a, records[i].key));
        assert(totals_of(a, records[i].key) == totals_of(b, records[i].key));
    }
    assert(page_records(records, b));
    lemma_page_determined(records, records, b);
}

// ---------------------------------------------------------------------------
// Sums
// ---------------------------------------------------------------------------
/// The exact totals of all entries.
pub open spec fn all_totals(entries: Seq<(KeyModel, Amounts)>) -> Totals
    decreases entries.len(),
{
    if entries.len() == 0 {
        Totals::zero()
    } else {
        all_totals(entries.drop_last()).plus(entries.last().1)
    }
}

/// The sums over the records of a page.
pub open spec fn summed(records: Seq<RecordModel>) -> Totals
    decreases records.len(),
{
    if records.len() == 0 {
        Totals::zero()
    } else {
        summed(records.drop_last()).plus(records.last().amounts)
    }
}

/// The sum of the token sums of the records of a page.
pub open spec fn summed_tokens(records: Seq<RecordModel>) -> nat
    decreases records.len(),
{
    if records.len() == 0 {
        0
    } else {
        summed_tokens(records.drop_last()) + records.last().total_tokens as nat
    }
}

/// The records that are exact for a list of entries, whatever keys the entries have.
spec fn exact_for(records: Seq<RecordModel>, entries: Seq<(KeyModel, Amounts)>) -> Seq<Totals> {
    records.map_values(|record: RecordModel| totals_of(entries, record.key))
}

spec fn joined(a: Totals, b: Totals) -> Totals {
    Totals {
        input_tokens: a.input_tokens + b.input_tokens,
        output_tokens: a.output_tokens + b.output_tokens,
        cache_read_tokens: a.cache_read_tokens + b.cache_read_tokens,
        cache_write_tokens: a.cache_write_tokens + b.cache_write_tokens,
        reasoning_tokens: a.reasoning_tokens + b.reasoning_tokens,
        message_count: a.message_count + b.message_count,
        turn_count: a.turn_count + b.turn_count,
        cost_nano_usd: a.cost_nano_usd + b.cost_nano_usd,
        duration_millis: a.duration_millis + b.duration_millis,
        timed_tokens: a.timed_tokens + b.timed_tokens,
        sample_count: a.sample_count + b.sample_count,
    }
}

spec fn joined_all(totals: Seq<Totals>) -> Totals
    decreases totals.len(),
{
    if totals.len() == 0 {
        Totals::zero()
    } else {
        joined(joined_all(totals.drop_last()), totals.last())
    }
}

proof fn lemma_joined_added(
    records: Seq<RecordModel>,
    entries: Seq<(KeyModel, Amounts)>,
    key: KeyModel,
    amounts: Amounts,
)
    requires
        forall|i: int, j: int|
            0 <= i < j < records.len() ==> (#[trigger] records[i]).key != (#[trigger] records[j]).key,
    ensures
        joined_all(exact_for(records, entries.push((key, amounts)))) == (if exists|i: int|
            0 <= i < records.len() && (#[trigger] records[i]).key == key {
            joined_all(exact_for(records, entries)).plus(amounts)
        } else {
            joined_all(exact_for(records, entries))
        }),
    decreases records.len(),
{
    let pushed = entries.push((key, amounts));
    lemma_entry_added(entries, key, amounts);
    if records.len() > 0 {
        let before = records.drop_last();
        let last = records.last();
        assert(records[records.len() - 1] == last);
        assert forall|i: int| 0 <= i < before.len() implies before[i] == records[i] by {}
        lemma_joined_added(before, entries, key, amounts);
        assert(exact_for(records, pushed).drop_last() =~= exact_for(before, pushed));
        assert(exact_for(records, entries).drop_last() =~= exact_for(before, entries));
        if exists|i: int| 0 <= i < records.len() && (#[trigger] records[i]).key == key {
            let i = choose|i: int| 0 <= i < records.len() && (#[trigger] records[i]).key == key;
            if i < before.len() {
                assert(before[i].key == key);
                assert(last.key != key);
            } else {
                assert(!exists|j: int| 0 <= j < before.len() && (#[trigger] before[j]).key == key);
            }
        } else {
            assert(!exists|j: int| 0 <= j < before.len() && (#[trigger] before[j]).key == key) by {
                if exists|j: int| 0 <= j < before.len() && (#[trigger] before[j]).key == key {
                    let j = choose|j: int|
                        0 <= j < before.len() && (#[trigger] before[j]).key == key;
                    assert(records[j].key == key);
                }
            }
        }
    }
}

proof fn lemma_joined_none(records: Seq<RecordModel>)
    ensures
        joined_all(exact_for(records, Seq::empty())) == Totals::zero(),
    decreases records.len(),
{
    if records.len() > 0 {
        lemma_joined_none(records.drop_last());
        assert(exact_for(records, Seq::empty()).drop_last() =~= exact_for(
            records.drop_last(),
            Seq::empty(),
        ));
    }
}

proof fn lemma_joined_covers(
    records: Seq<RecordModel>,
    entries: Seq<(KeyModel, Amounts)>,
    all: Seq<(KeyModel, Amounts)>,
)
    requires
        page_records(records, all),
        entries.len() <= all.len(),
        entries == all.take(entries.len() as int),
    ensures
        joined_all(exact_for(records, entries)) == all_totals(entries),
    decreases entries.len(),
{
    assert forall|i: int, j: int| 0 <= i < j < records.len() implies (#[trigger] records[i]).key != (
    #[trigger] records[j]).key by {
        RecordKey::irreflexive(records[i].key);
    }
    if entries.len() == 0 {
        assert(entries =~= Seq::empty());
        lemma_joined_none(records);
    } else {
        let before = entries.drop_last();
        let last = entries.last();
        assert(before =~= all.take(before.len() as int));
        lemma_joined_covers(records, before, all);
        lemma_joined_added(records, before, last.0, last.1);
        assert(before.push((last.0, last.1)) =~= entries);
        assert(all[entries.len() - 1] == last);
        let i = choose|i: int|
            0 <= i < records.len() && (#[trigger] records[i]).key == all[entries.len() - 1].0;
        assert(records[i].key == last.0);
    }
}

proof fn lemma_summed_joined(records: Seq<RecordModel>, entries: Seq<(KeyModel, Amounts)>)
    requires
        !overflowing(entries),
        forall|i: int|
            0 <= i < records.len() ==> {
                let totals = totals_of(entries, (#[trigger] records[i]).key);
                records[i].amounts == totals.capped() && records[i].total_tokens == capped(
                    totals.token_sum(),
                )
            },
    ensures
        summed(records) == joined_all(exact_for(records, entries)),
        summed_tokens(records) == summed(records).token_sum(),
    decreases records.len(),
{
    if records.len() > 0 {
        let before = records.drop_last();
        let last = records.last();
        assert(records[records.len() - 1] == last);
        assert forall|i: int| 0 <= i < before.len() implies before[i] == records[i] by {}
        lemma_summed_joined(before, entries);
        assert(exact_for(records, entries).drop_last() =~= exact_for(before, entries));
        let totals = totals_of(entries, last.key);
        assert(!totals.exceeds() && totals.token_sum() <= u64::MAX);
    }
}

/// No message is lost or counted twice: where nothing was capped, the records of a page add up
/// to the totals of the messages.
pub proof fn lemma_pages_add_up(kept: Seq<Kept>, page: PageKind)
    requires
        !overflowing(entries_on(kept, page)),
    ensures
        summed(records_on(kept, page)) == all_totals(entries_on(kept, page)),
        summed_tokens(records_on(kept, page)) == all_totals(entries_on(kept, page)).token_sum(),
{
    let entries = entries_on(kept, page);
    let records = records_on(kept, page);
    lemma_page_exists(entries);
    assert(entries.take(entries.len() as int) =~= entries);
    lemma_joined_covers(records, entries, entries);
    lemma_summed_joined(records, entries);
}

/// The pages of a report agree: where nothing was capped, any two of them add up to the same
/// tokens, messages, turns and cost.
pub proof fn lemma_pages_agree(kept: Seq<Kept>, first: PageKind, second: PageKind)
    requires
        !some_total_capped(kept),
    ensures
        ({
            let a = summed(records_on(kept, first));
            let b = summed(records_on(kept, second));
            &&& a.input_tokens == b.input_tokens
            &&& a.output_tokens == b.output_tokens
            &&& a.cache_read_tokens == b.cache_read_tokens
            &&& a.cache_write_tokens == b.cache_write_tokens
            &&& a.reasoning_tokens == b.reasoning_tokens
            &&& a.message_count == b.message_count
            &&& a.turn_count == b.turn_count
            &&& a.cost_nano_usd == b.cost_nano_usd
        }),
        summed_tokens(records_on(kept, first)) == summed_tokens(records_on(kept, second)),
{
    lemma_pages_add_up(kept, first);
    lemma_pages_add_up(kept, second);
    lemma_all_totals_agree(kept, first, second);
}

proof fn lemma_all_totals_agree(kept: Seq<Kept>, first: PageKind, second: PageKind)
    ensures
        ({
            let a = all_totals(entries_on(kept, first));
            let b = all_totals(entries_on(kept, second));
            &&& a.input_tokens == b.input_tokens
            &&& a.output_tokens == b.output_tokens
            &&& a.cache_read_tokens == b.cache_read_tokens
            &&& a.cache_write_tokens == b.cache_write_tokens
            &&& a.reasoning_tokens == b.reasoning_tokens
            &&& a.message_count == b.message_count
            &&& a.turn_count == b.turn_count
            &&& a.cost_nano_usd == b.cost_nano_usd
        }),
    decreases kept.len(),
{
    if kept.len() > 0 {
        lemma_all_totals_agree(kept.drop_last(), first, second);
        assert(entries_on(kept, first).drop_last() =~= entries_on(kept.drop_last(), first));
        assert(entries_on(kept, second).drop_last() =~= entries_on(kept.drop_last(), second));
    }
}

// ---------------------------------------------------------------------------
// What the records say
// ---------------------------------------------------------------------------
pub open spec fn input_tokens() -> spec_fn(Kept) -> nat {
    |message: Kept| message.numerators.input_tokens as nat
}

pub open spec fn output_tokens() -> spec_fn(Kept) -> nat {
    |message: Kept| message.numerators.output_tokens as nat
}

pub open spec fn cache_read_tokens() -> spec_fn(Kept) -> nat {
    |message: Kept| message.numerators.cache_read_tokens as nat
}

pub open spec fn cache_write_tokens() -> spec_fn(Kept) -> nat {
    |message: Kept| message.numerators.cache_write_tokens as nat
}

pub open spec fn reasoning_tokens() -> spec_fn(Kept) -> nat {
    |message: Kept| message.numerators.reasoning_tokens as nat
}

pub open spec fn message_counts() -> spec_fn(Kept) -> nat {
    |message: Kept| message.numerators.message_count as nat
}

pub open spec fn turn_counts() -> spec_fn(Kept) -> nat {
    |message: Kept| message.numerators.turn_count as nat
}

pub open spec fn costs() -> spec_fn(Kept) -> nat {
    |message: Kept| message.numerators.cost_nano_usd as nat
}

/// The tokens of all kinds of a message.
pub open spec fn tokens_of(message: Kept) -> nat {
    (message.numerators.input_tokens + message.numerators.output_tokens
        + message.numerators.cache_read_tokens + message.numerators.cache_write_tokens
        + message.numerators.reasoning_tokens) as nat
}

/// Whether a message has a duration that counts: it is not zero, and the message has tokens.
pub open spec fn is_timed(message: Kept) -> bool {
    message.numerators.duration_millis is Some && message.numerators.duration_millis->0 > 0
        && tokens_of(message) > 0
}

pub open spec fn durations() -> spec_fn(Kept) -> nat {
    |message: Kept|
        if is_timed(message) {
            message.numerators.duration_millis->0 as nat
        } else {
            0
        }
}

/// The tokens of timed messages, as far as 64 bits hold those of each.
pub open spec fn timed_tokens() -> spec_fn(Kept) -> nat {
    |message: Kept|
        if !is_timed(message) {
            0
        } else if tokens_of(message) <= u64::MAX {
            tokens_of(message)
        } else {
            u64::MAX as nat
        }
}

pub open spec fn samples() -> spec_fn(Kept) -> nat {
    |message: Kept|
        if is_timed(message) {
            1
        } else {
            0
        }
}

/// Whether a number is a total as far as 64 bits hold it, and the whole total unless the report
/// says that one was cut.
pub open spec fn is_total(number: u64, total: nat, saturated: bool) -> bool {
    &&& total <= u64::MAX ==> number == total
    &&& total > u64::MAX ==> number == u64::MAX && saturated
}

/// Whether the numbers of a record are the totals of messages: of each kind of tokens, of all
/// kinds, of messages, of turns and of costs.
pub open spec fn adds_up(
    booked: Seq<Kept>,
    amounts: Amounts,
    total_tokens: u64,
    saturated: bool,
) -> bool {
    &&& is_total(amounts.input_tokens, sum_of(booked, input_tokens()), saturated)
    &&& is_total(amounts.output_tokens, sum_of(booked, output_tokens()), saturated)
    &&& is_total(amounts.cache_read_tokens, sum_of(booked, cache_read_tokens()), saturated)
    &&& is_total(amounts.cache_write_tokens, sum_of(booked, cache_write_tokens()), saturated)
    &&& is_total(amounts.reasoning_tokens, sum_of(booked, reasoning_tokens()), saturated)
    &&& is_total(amounts.message_count, sum_of(booked, message_counts()), saturated)
    &&& is_total(amounts.turn_count, sum_of(booked, turn_counts()), saturated)
    &&& is_total(amounts.cost_nano_usd, sum_of(booked, costs()), saturated)
    &&& is_total(
        total_tokens,
        sum_of(booked, input_tokens()) + sum_of(booked, output_tokens()) + sum_of(
            booked,
            cache_read_tokens(),
        ) + sum_of(booked, cache_write_tokens()) + sum_of(booked, reasoning_tokens()),
        saturated,
    )
}

/// Whether names come before others: by client, then by model, then by provider, a missing one
/// first.
pub open spec fn names_before(
    client: Seq<char>,
    model: Option<Seq<char>>,
    provider: Option<Seq<char>>,
    other_client: Seq<char>,
    other_model: Option<Seq<char>>,
    other_provider: Option<Seq<char>>,
) -> bool {
    ||| text_before(client, other_client)
    ||| client == other_client && is_earlier(model, other_model)
    ||| client == other_client && model == other_model && is_earlier(provider, other_provider)
}

/// Whether an optional name comes before another.
pub open spec fn is_earlier(name: Option<Seq<char>>, other: Option<Seq<char>>) -> bool {
    other is Some && (name is Some ==> text_before(name->0, other->0))
}

proof fn lemma_filtered_last(kept: Seq<Kept>, pick: spec_fn(Kept) -> bool)
    requires
        kept.len() > 0,
    ensures
        kept.filter(pick) == (if pick(kept.last()) {
            kept.drop_last().filter(pick).push(kept.last())
        } else {
            kept.drop_last().filter(pick)
        }),
{
    reveal(Seq::filter);
}

proof fn lemma_sum_pushed<A>(list: Seq<A>, item: A, number: spec_fn(A) -> nat)
    ensures
        sum_of(list.push(item), number) == sum_of(list, number) + number(item),
{
    assert(list.push(item).drop_last() =~= list);
}

/// The totals of a key are the sums over the messages that have it.
#[verifier::rlimit(30)]
proof fn lemma_totals_are_sums(
    kept: Seq<Kept>,
    page: PageKind,
    key: KeyModel,
    pick: spec_fn(Kept) -> bool,
)
    requires
        forall|message: Kept| #[trigger] pick(message) == (key_on(message, page) == key),
    ensures
        ({
            let totals = totals_of(entries_on(kept, page), key);
            let booked = kept.filter(pick);
            &&& totals.input_tokens == sum_of(booked, input_tokens())
            &&& totals.output_tokens == sum_of(booked, output_tokens())
            &&& totals.cache_read_tokens == sum_of(booked, cache_read_tokens())
            &&& totals.cache_write_tokens == sum_of(booked, cache_write_tokens())
            &&& totals.reasoning_tokens == sum_of(booked, reasoning_tokens())
            &&& totals.message_count == sum_of(booked, message_counts())
            &&& totals.turn_count == sum_of(booked, turn_counts())
            &&& totals.cost_nano_usd == sum_of(booked, costs())
            &&& page is Models ==> totals.duration_millis == sum_of(booked, durations())
            &&& page is Models ==> totals.timed_tokens == sum_of(booked, timed_tokens())
            &&& page is Models ==> totals.sample_count == sum_of(booked, samples())
        }),
    decreases kept.len(),
{
    if kept.len() == 0 {
        reveal(Seq::filter);
    } else {
        let before = kept.drop_last();
        let last = kept.last();
        lemma_totals_are_sums(before, page, key, pick);
        assert(entries_on(kept, page).drop_last() =~= entries_on(before, page));
        lemma_filtered_last(kept, pick);
        if pick(last) {
            let booked = before.filter(pick);
            lemma_sum_pushed(booked, last, input_tokens());
            lemma_sum_pushed(booked, last, output_tokens());
            lemma_sum_pushed(booked, last, cache_read_tokens());
            lemma_sum_pushed(booked, last, cache_write_tokens());
            lemma_sum_pushed(booked, last, reasoning_tokens());
            lemma_sum_pushed(booked, last, message_counts());
            lemma_sum_pushed(booked, last, turn_counts());
            lemma_sum_pushed(booked, last, costs());
            lemma_sum_pushed(booked, last, durations());
            lemma_sum_pushed(booked, last, timed_tokens());
            lemma_sum_pushed(booked, last, samples());
        }
    }
}

/// The records of a page.
pub open spec fn page_in(bundle: BundleModel, page: PageKind) -> Seq<RecordModel> {
    match page {
        PageKind::Graph => bundle.graph,
        PageKind::Models => bundle.models,
        PageKind::Hourly => bundle.hourly,
        PageKind::Agents => bundle.agents,
    }
}

/// Whether a message belongs to a record: it has the record's client, model and provider, and on
/// the graph page its date, on the hourly page its hour, on the agents page its agent.
pub open spec fn belongs(message: Kept, record: RecordModel, page: PageKind) -> bool {
    &&& page is Graph ==> record.key.label == message.date
    &&& page is Agents ==> record.key.label == message.agent
    &&& page is Hourly ==> record.key.start == message.bucket_start_unix_ms && record.key.offset
        == message.utc_offset_seconds
    &&& record.key.client == message.client
    &&& record.key.model == message.model
    &&& record.key.provider == message.provider
}

/// The parts of a key that a page does not use are zero or empty, so that a message belongs to
/// the record that has its key.
proof fn lemma_belongs(kept: Seq<Kept>, page: PageKind, at: int, message: Kept)
    requires
        0 <= at < records_on(kept, page).len(),
    ensures
        belongs(message, records_on(kept, page)[at], page) == (key_on(message, page) == records_on(
            kept,
            page,
        )[at].key),
        exists|m: int|
            0 <= m < kept.len() && belongs(#[trigger] kept[m], records_on(kept, page)[at], page),
{
    let entries = entries_on(kept, page);
    lemma_page_exists(entries);
    let key = records_on(kept, page)[at].key;
    assert(has_key(entries, key));
    let m = choose|m: int| 0 <= m < entries.len() && (#[trigger] entries[m]).0 == key;
    assert(entries[m].0 == key_on(kept[m], page));
    assert(belongs(kept[m], records_on(kept, page)[at], page));
}

/// Every message belongs to a record of every page.
pub proof fn lemma_every_message_has_a_record(
    kept: Seq<Kept>,
    bundle: BundleModel,
    page: PageKind,
    m: int,
) -> (at: int)
    requires
        finished(kept) == Ok::<BundleModel, RemoteUsageError>(bundle),
        0 <= m < kept.len(),
    ensures
        0 <= at < page_in(bundle, page).len(),
        belongs(kept[m], page_in(bundle, page)[at], page),
{
    let entries = entries_on(kept, page);
    lemma_page_exists(entries);
    assert(entries[m].0 == key_on(kept[m], page));
    let at = choose|i: int|
        0 <= i < records_on(kept, page).len() && (#[trigger] records_on(kept, page)[i]).key
            == entries[m].0;
    lemma_belongs(kept, page, at, kept[m]);
    at
}

/// Every record is of some message, and its numbers are the totals of the messages that belong to
/// it, each once: no other message counts. The models page counts the durations and tokens of
/// the messages that are timed, too. No total is cut unless the report says so.
pub proof fn lemma_records_add_up(kept: Seq<Kept>, bundle: BundleModel, page: PageKind, at: int)
    requires
        finished(kept) == Ok::<BundleModel, RemoteUsageError>(bundle),
        0 <= at < page_in(bundle, page).len(),
    ensures
        exists|m: int|
            0 <= m < kept.len() && belongs(#[trigger] kept[m], page_in(bundle, page)[at], page),
        ({
            let record = page_in(bundle, page)[at];
            let booked = kept.filter(|message: Kept| belongs(message, record, page));
            &&& adds_up(booked, record.amounts, record.total_tokens, bundle.saturated)
            &&& page is Models ==> is_total(
                record.amounts.duration_millis,
                sum_of(booked, durations()),
                bundle.saturated,
            ) && is_total(
                record.amounts.timed_tokens,
                sum_of(booked, timed_tokens()),
                bundle.saturated,
            ) && is_total(record.amounts.sample_count, sum_of(booked, samples()), bundle.saturated)
        }),
{
    let entries = entries_on(kept, page);
    let record = records_on(kept, page)[at];
    let pick = |message: Kept| belongs(message, record, page);
    assert(page_in(bundle, page)[at] == record);
    lemma_page_exists(entries);
    assert forall|message: Kept| #[trigger] pick(message) == (key_on(message, page)
        == record.key) by {
        lemma_belongs(kept, page, at, message);
    }
    lemma_totals_are_sums(kept, page, record.key, pick);
    lemma_belongs(kept, page, at, kept[0]);
    let totals = totals_of(entries, record.key);
    assert(records_on(kept, page)[at].amounts == totals.capped());
    assert(records_on(kept, page)[at].total_tokens == capped(totals.token_sum()));
    if totals.exceeds() || totals.token_sum() > u64::MAX {
        assert(overflowing(entries));
        assert(some_total_capped(kept));
    }
}

/// The records of a page are in order, so that no two have the same key: by hour on the hourly
/// page, by date on the graph page, by agent on the agents page, and then by their names.
pub proof fn lemma_records_in_order(
    kept: Seq<Kept>,
    bundle: BundleModel,
    page: PageKind,
    i: int,
    j: int,
)
    requires
        finished(kept) == Ok::<BundleModel, RemoteUsageError>(bundle),
        0 <= i < j < page_in(bundle, page).len(),
    ensures
        ({
            let a = page_in(bundle, page)[i].key;
            let b = page_in(bundle, page)[j].key;
            let names = names_before(
                a.client,
                a.model,
                a.provider,
                b.client,
                b.model,
                b.provider,
            );
            match page {
                PageKind::Hourly => a.start < b.start || a.start == b.start && (a.offset < b.offset
                    || a.offset == b.offset && names),
                PageKind::Models => names,
                _ => text_before(a.label, b.label) || a.label == b.label && names,
            }
        }),
{
    lemma_page_exists(entries_on(kept, page));
    assert(key_before(records_on(kept, page)[i].key, records_on(kept, page)[j].key));
    lemma_belongs(kept, page, i, kept[0]);
    lemma_belongs(kept, page, j, kept[0]);
    let m = choose|m: int|
        0 <= m < kept.len() && belongs(#[trigger] kept[m], records_on(kept, page)[i], page);
    let n = choose|n: int|
        0 <= n < kept.len() && belongs(#[trigger] kept[n], records_on(kept, page)[j], page);
    lemma_belongs(kept, page, i, kept[m]);
    lemma_belongs(kept, page, j, kept[n]);
}

/// Whether an optional text is what a name says.
pub open spec fn is_name(text: Option<String>, name: Option<Seq<char>>) -> bool {
    match (text, name) {
        (Some(text), Some(name)) => text@ == name,
        (None, None) => true,
        _ => false,
    }
}

/// The records of a report show what they are about, each number and each name in the field of
/// its own: the date, the hour or the agent, the client, the model and the provider.
pub proof fn lemma_records_show_what_they_count(
    graph: RemoteGraphRecordV1,
    models: RemoteModelsRecordV1,
    hourly: RemoteHourlyRecordV1,
    agents: RemoteAgentsRecordV1,
)
    ensures
        graph@.key.label == graph.date@,
        graph@.key.client == graph.client@,
        is_name(graph.model, graph@.key.model),
        is_name(graph.provider, graph@.key.provider),
        graph@.amounts.input_tokens == graph.input_tokens,
        graph@.amounts.output_tokens == graph.output_tokens,
        graph@.amounts.cache_read_tokens == graph.cache_read_tokens,
        graph@.amounts.cache_write_tokens == graph.cache_write_tokens,
        graph@.amounts.reasoning_tokens == graph.reasoning_tokens,
        graph@.amounts.message_count == graph.message_count,
        graph@.amounts.turn_count == graph.turn_count,
        graph@.amounts.cost_nano_usd == graph.cost_nano_usd,
        graph@.total_tokens == graph.total_tokens,
        models@.key.client == models.client@,
        is_name(models.model, models@.key.model),
        is_name(models.provider, models@.key.provider),
        models@.amounts.input_tokens == models.input_tokens,
        models@.amounts.output_tokens == models.output_tokens,
        models@.amounts.cache_read_tokens == models.cache_read_tokens,
        models@.amounts.cache_write_tokens == models.cache_write_tokens,
        models@.amounts.reasoning_tokens == models.reasoning_tokens,
        models@.amounts.message_count == models.message_count,
        models@.amounts.turn_count == models.turn_count,
        models@.amounts.cost_nano_usd == models.cost_nano_usd,
        models@.amounts.duration_millis == models.duration_millis,
        models@.amounts.timed_tokens == models.timed_tokens,
        models@.amounts.sample_count == models.sample_count,
        models@.total_tokens == models.total_tokens,
        hourly@.key.start == hourly.bucket_start_unix_ms,
        hourly@.key.offset == hourly.utc_offset_seconds,
        hourly@.key.client == hourly.client@,
        is_name(hourly.model, hourly@.key.model),
        is_name(hourly.provider, hourly@.key.provider),
        hourly@.amounts.input_tokens == hourly.input_tokens,
        hourly@.amounts.output_tokens == hourly.output_tokens,
        hourly@.amounts.cache_read_tokens == hourly.cache_read_tokens,
        hourly@.amounts.cache_write_tokens == hourly.cache_write_tokens,
        hourly@.amounts.reasoning_tokens == hourly.reasoning_tokens,
        hourly@.amounts.message_count == hourly.message_count,
        hourly@.amounts.turn_count == hourly.turn_count,
        hourly@.amounts.cost_nano_usd == hourly.cost_nano_usd,
        hourly@.total_tokens == hourly.total_tokens,
        agents@.key.label == agents.agent@,
        agents@.key.client == agents.client@,
        is_name(agents.model, agents@.key.model),
        is_name(agents.provider, agents@.key.provider),
        agents@.amounts.input_tokens == agents.input_tokens,
        agents@.amounts.output_tokens == agents.output_tokens,
        agents@.amounts.cache_read_tokens == agents.cache_read_tokens,
        agents@.amounts.cache_write_tokens == agents.cache_write_tokens,
        agents@.amounts.reasoning_tokens == agents.reasoning_tokens,
        agents@.amounts.message_count == agents.message_count,
        agents@.amounts.turn_count == agents.turn_count,
        agents@.amounts.cost_nano_usd == agents.cost_nano_usd,
        agents@.total_tokens == agents.total_tokens,
{
}

} // verus!
