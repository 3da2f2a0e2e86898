//! What holds of every message of a report: its numbers, its names, its time and its records.
use vstd::prelude::*;
use vstd::utf8::*;

use crate::calendar::{
    lemma_dates_in_order, whole_milliseconds, zone_earlier, zone_following, zone_later,
    zone_preceding, CivilDate,
};
use crate::local_hours::{
    earliest_start, hour_candidates, lemma_earliest_start, local_hour, with_candidate,
    HourCandidate,
};
use crate::remote_report::error::RemoteUsageError;
use crate::remote_report::fold::{
    finished, fold_of, labels_of, report_of, BundleModel, PageKind,
    RemoteUsageBundleV1,
};
use crate::remote_report::laws::{
    belongs, counts, kept_by, labels_bytes, lemma_every_message_has_a_record,
    lemma_steps_in_order, page_in, picked, reading,
};
use crate::remote_report::message::{
    agent_name, message_time, model_name, numerators_of, prepared, provider_name, Kept,
    MessageTime, Numerators, ReportMessage, ReportModel,
};
use crate::remote_report::query::{is_valid_text, QueryModel, RemoteUsageQueryV1};
use crate::text::{is_white_space, lemma_blank, lemma_trimmed_parts, nfc_form, trimmed};

verus! {

/// A message, a query and a report say what their fields hold, each in its place.
pub proof fn lemma_inputs_say_their_fields(
    report: ReportMessage,
    query: RemoteUsageQueryV1,
    bundle: RemoteUsageBundleV1,
)
    ensures
        report@.message == report.message@,
        report@.selected == report.selected,
        report@.canonical_model == report.canonical_model@,
        report@.agent_name == report.agent_name@,
        report@.copilot_agent_name == report.copilot_agent_name@,
        report@.cost_nano_usd == report.cost_nano_usd,
        query@.start_date == query.start_date@,
        query@.end_date_exclusive == query.end_date_exclusive@,
        query@.timezone == query.timezone@,
        query@.tzdb_revision == query.tzdb_revision@,
        query@.clients.len() == query.clients@.len(),
        forall|i: int|
            0 <= i < query.clients@.len() ==> (#[trigger] query@.clients[i]) == query.clients@[i]@,
        bundle@.saturated == bundle.saturated,
        bundle@.graph.len() == bundle.graph@.len(),
        bundle@.models.len() == bundle.models@.len(),
        bundle@.hourly.len() == bundle.hourly@.len(),
        bundle@.agents.len() == bundle.agents@.len(),
        forall|i: int|
            0 <= i < bundle.graph@.len() ==> (#[trigger] bundle@.graph[i]) == bundle.graph@[i]@,
        forall|i: int|
            0 <= i < bundle.models@.len() ==> (#[trigger] bundle@.models[i]) == bundle.models@[i]@,
        forall|i: int|
            0 <= i < bundle.hourly@.len() ==> (#[trigger] bundle@.hourly[i]) == bundle.hourly@[i]@,
        forall|i: int|
            0 <= i < bundle.agents@.len() ==> (#[trigger] bundle@.agents[i]) == bundle.agents@[i]@,
{
}

// ---------------------------------------------------------------------------
// Numbers
// ---------------------------------------------------------------------------
/// A message counts where none of its numbers is negative and its cost is known, and it counts
/// each number as what it is: the tokens of each kind, the messages, one turn where it starts
/// one, the cost and the duration.
pub proof fn lemma_numbers_of_a_message(report: ReportModel)
    ensures
        ({
            let message = report.message;
            let in_order = message.tokens.input >= 0 && message.tokens.output >= 0
                && message.tokens.cache_read >= 0 && message.tokens.cache_write >= 0
                && message.tokens.reasoning >= 0 && message.message_count >= 0
                && report.cost_nano_usd is Some && (message.duration_ms is Some
                ==> message.duration_ms->0 >= 0);
            match numerators_of(report) {
                Ok(numbers) => {
                    &&& in_order
                    &&& numbers.input_tokens == message.tokens.input
                    &&& numbers.output_tokens == message.tokens.output
                    &&& numbers.cache_read_tokens == message.tokens.cache_read
                    &&& numbers.cache_write_tokens == message.tokens.cache_write
                    &&& numbers.reasoning_tokens == message.tokens.reasoning
                    &&& numbers.message_count == message.message_count
                    &&& message.is_turn_start ==> numbers.turn_count == 1
                    &&& !message.is_turn_start ==> numbers.turn_count == 0
                    &&& Some(numbers.cost_nano_usd) == report.cost_nano_usd
                    &&& numbers.duration_millis is Some <==> message.duration_ms is Some
                    &&& message.duration_ms is Some ==> numbers.duration_millis->0
                        == message.duration_ms->0
                },
                Err(error) => !in_order && error == RemoteUsageError::InvalidNumerator,
            }
        }),
{
}

// ---------------------------------------------------------------------------
// Names
// ---------------------------------------------------------------------------
/// A report takes a text of at most 255 bytes in Normalization Form C, and an empty one only
/// where that is allowed.
pub proof fn lemma_texts_that_are_taken(text: Seq<char>)
    ensures
        is_valid_text(text, true) <==> encode_utf8(text).len() <= 255 && nfc_form(text) == text,
        is_valid_text(text, false) <==> is_valid_text(text, true) && text.len() > 0,
{
}

/// A blank name is none. Else a model has its canonical name, where both are texts that a report
/// takes, and an error else.
pub proof fn lemma_model_names(value: Seq<char>, canonical: Seq<char>)
    ensures
        ({
            let blank = forall|i: int| 0 <= i < value.len() ==> is_white_space(#[trigger] value[i]);
            let taken = is_valid_text(value, true) && (blank || is_valid_text(
                trimmed(value),
                true,
            ) && is_valid_text(canonical, false));
            match model_name(value, canonical) {
                Ok(None) => taken && blank,
                Ok(Some(name)) => taken && !blank && name == canonical,
                Err(error) => !taken && error == RemoteUsageError::InvalidText,
            }
        }),
{
    lemma_blank(value);
}

/// A provider has its name without the white space around it, and none where nothing is left.
pub proof fn lemma_provider_names(value: Seq<char>) -> (around: (Seq<char>, Seq<char>))
    ensures
        match provider_name(value) {
            Ok(Some(name)) => {
                &&& value == around.0 + name + around.1
                &&& name.len() > 0
                &&& !is_white_space(name[0])
                &&& !is_white_space(name[name.len() - 1])
            },
            Ok(None) => value == around.0 + around.1,
            Err(error) => error == RemoteUsageError::InvalidText && (!is_valid_text(value, true)
                || !is_valid_text(trimmed(value), true)),
        },
        is_valid_text(value, true) && is_valid_text(trimmed(value), true) ==> provider_name(
            value,
        ) is Ok,
        forall|i: int| 0 <= i < around.0.len() ==> is_white_space(#[trigger] around.0[i]),
        forall|i: int| 0 <= i < around.1.len() ==> is_white_space(#[trigger] around.1[i]),
{
    let around = lemma_trimmed_parts(value);
    if trimmed(value).len() == 0 {
        assert(value =~= around.0 + around.1);
    }
    around
}

/// The agent that a report shows for a message: the main one where it has none or where its
/// display name is empty, else its display name, which Copilot has its own of.
pub open spec fn is_shown_agent(report: ReportModel, agent: Seq<char>) -> bool {
    let name = if report.message.client == "copilot"@ {
        report.copilot_agent_name
    } else {
        report.agent_name
    };
    &&& report.message.agent is None || name.len() == 0 ==> agent == "Main"@
    &&& report.message.agent is Some && name.len() > 0 ==> agent == name
}

/// An agent has the name that a report shows, and there is an error only where it or the given
/// name is no text that a report takes.
pub proof fn lemma_agent_names(report: ReportModel)
    ensures
        match agent_name(
            report.message.client,
            report.message.agent,
            report.agent_name,
            report.copilot_agent_name,
        ) {
            Ok(agent) => is_shown_agent(report, agent),
            Err(error) => {
                &&& error == RemoteUsageError::InvalidText
                &&& report.message.agent is Some
                &&& !is_valid_text(report.message.agent->0, true) || exists|agent: Seq<char>| #[trigger]
                    is_shown_agent(report, agent) && !is_valid_text(agent, false)
            },
        },
        report.message.agent matches Some(value) ==> !is_valid_text(value, true) ==> agent_name(
            report.message.client,
            report.message.agent,
            report.agent_name,
            report.copilot_agent_name,
        ) is Err,
{
    let name = if report.message.client == "copilot"@ {
        report.copilot_agent_name
    } else {
        report.agent_name
    };
    let shown = if name.len() == 0 {
        "Main"@
    } else {
        name
    };
    if report.message.agent is Some {
        assert(is_shown_agent(report, shown));
    }
}

// ---------------------------------------------------------------------------
// What is counted
// ---------------------------------------------------------------------------
/// A message that counts keeps its client, its local date, its hour, its numbers and its names,
/// each in its place.
pub proof fn lemma_what_is_kept_of_a_message(
    report: ReportModel,
    time: MessageTime,
    start: CivilDate,
    end: CivilDate,
    kept: Kept,
)
    requires
        prepared(report, time, start, end) == Ok::<Option<Kept>, RemoteUsageError>(Some(kept)),
    ensures
        kept.client == report.message.client,
        kept.date == time.local.date.text(),
        kept.bucket_start_unix_ms == time.bucket_start_unix_ms,
        kept.utc_offset_seconds == time.local.offset,
        is_shown_agent(report, kept.agent),
        model_name(report.message.model_id, report.canonical_model) == Ok::<
            Option<Seq<char>>,
            RemoteUsageError,
        >(kept.model),
        provider_name(report.message.provider_id) == Ok::<Option<Seq<char>>, RemoteUsageError>(
            kept.provider,
        ),
        numerators_of(report) == Ok::<Numerators, RemoteUsageError>(kept.numerators),
{
    lemma_agent_names(report);
}

/// A message counts where it is selected, its local date is within the range, the first day
/// included and the last not, and its names are in order. One whose client or numbers are not
/// in order is an error wherever it is; names matter only where the message would count.
pub proof fn lemma_which_messages_count(
    report: ReportModel,
    time: MessageTime,
    start: CivilDate,
    end: CivilDate,
)
    requires
        time.local.date.valid(),
        start.valid(),
        end.valid(),
    ensures
        ({
            let day = time.local.date.day_number();
            let asked = report.selected && start.day_number() <= day < end.day_number();
            let named = model_name(report.message.model_id, report.canonical_model) is Ok
                && provider_name(report.message.provider_id) is Ok && agent_name(
                report.message.client,
                report.message.agent,
                report.agent_name,
                report.copilot_agent_name,
            ) is Ok;
            let in_order = is_valid_text(report.message.client, false) && numerators_of(
                report,
            ) is Ok;
            match prepared(report, time, start, end) {
                Ok(Some(_)) => in_order && asked && named,
                Ok(None) => in_order && !asked,
                Err(error) => {
                    &&& !in_order || asked && !named
                    &&& !is_valid_text(report.message.client, false) ==> error
                        == RemoteUsageError::InvalidText
                    &&& is_valid_text(report.message.client, false) && !in_order ==> error
                        == RemoteUsageError::InvalidNumerator
                    &&& in_order ==> error == RemoteUsageError::InvalidText
                },
            }
        }),
{
    lemma_dates_in_order(time.local.date, start);
    lemma_dates_in_order(start, time.local.date);
    lemma_dates_in_order(time.local.date, end);
    lemma_dates_in_order(end, time.local.date);
}

/// The labels of a message count with all their bytes: those of the client, the model, the
/// provider and the agent.
pub proof fn lemma_bytes_of_labels(kept: Kept)
    ensures
        labels_bytes(labels_of(kept)) == encode_utf8(kept.client).len() + (match kept.model {
            Some(model) => encode_utf8(model).len(),
            None => 0,
        }) + (match kept.provider {
            Some(provider) => encode_utf8(provider).len(),
            None => 0,
        }) + encode_utf8(kept.agent).len(),
{
    reveal_with_fuel(labels_bytes, 5);
    let labels = labels_of(kept);
    assert(labels[0] == kept.client);
    let rest = labels.drop_first();
    if kept.model is Some {
        assert(rest[0] == kept.model->0);
        if kept.provider is Some {
            assert(rest.drop_first()[0] == kept.provider->0);
            assert(rest.drop_first().drop_first()[0] == kept.agent);
        } else {
            assert(rest.drop_first()[0] == kept.agent);
        }
    } else if kept.provider is Some {
        assert(rest[0] == kept.provider->0);
        assert(rest.drop_first()[0] == kept.agent);
    } else {
        assert(rest[0] == kept.agent);
    }
}

// ---------------------------------------------------------------------------
// Time
// ---------------------------------------------------------------------------
/// Whether an instant may be where the hour of another started: it is not behind it and falls
/// into the same local hour.
pub open spec fn may_start(zone: Seq<u8>, found: Option<i128>, instant: int) -> bool {
    found matches Some(found) && found <= instant && local_hour(zone, found as int) == local_hour(
        zone,
        instant,
    )
}

/// Whether an instant is the earliest among those that may be the start.
pub open spec fn is_earliest(
    zone: Seq<u8>,
    found: Seq<Option<i128>>,
    instant: int,
    start: i128,
) -> bool {
    &&& exists|i: int|
        0 <= i < found.len() && may_start(zone, #[trigger] found[i], instant) && found[i] == Some(
            start,
        )
    &&& forall|i: int|
        0 <= i < found.len() && may_start(zone, #[trigger] found[i], instant) ==> start
            <= found[i]->0
}

/// Whether candidates are the instants that were found, each with its local hour.
spec fn are_found(
    candidates: Seq<HourCandidate>,
    zone: Seq<u8>,
    found: Seq<Option<i128>>,
) -> bool {
    &&& forall|i: int|
        0 <= i < candidates.len() ==> found.contains(Some((#[trigger] candidates[i]).instant))
            && candidates[i].local == local_hour(zone, candidates[i].instant as int)
    &&& forall|k: int|
        0 <= k < found.len() && (#[trigger] found[k]) is Some ==> exists|i: int|
            0 <= i < candidates.len() && (#[trigger] candidates[i]).instant == found[k]->0
}

proof fn lemma_one_more_candidate(
    candidates: Seq<HourCandidate>,
    zone: Seq<u8>,
    found: Seq<Option<i128>>,
    more: Option<i128>,
)
    requires
        are_found(candidates, zone, found),
    ensures
        are_found(with_candidate(candidates, zone, more), zone, found.push(more)),
{
    let after = with_candidate(candidates, zone, more);
    let all = found.push(more);
    assert forall|i: int| 0 <= i < after.len() implies all.contains(
        Some((#[trigger] after[i]).instant),
    ) && after[i].local == local_hour(zone, after[i].instant as int) by {
        if i < candidates.len() {
            assert(after[i] == candidates[i]);
            let k = found.index_of(Some(candidates[i].instant));
            assert(all[k] == Some(after[i].instant));
        } else {
            assert(all[found.len() as int] == more);
        }
    }
    assert forall|k: int| 0 <= k < all.len() && (#[trigger] all[k]) is Some implies exists|i: int|
        0 <= i < after.len() && (#[trigger] after[i]).instant == all[k]->0 by {
        if k < found.len() {
            assert(all[k] == found[k]);
            let i = choose|i: int|
                0 <= i < candidates.len() && (#[trigger] candidates[i]).instant == found[k]->0;
            assert(after[i] == candidates[i]);
        } else {
            assert(after[candidates.len() as int].instant == more->0);
        }
    }
}

proof fn lemma_earliest_of_found(
    candidates: Seq<HourCandidate>,
    zone: Seq<u8>,
    found: Seq<Option<i128>>,
    instant: int,
)
    requires
        are_found(candidates, zone, found),
        i128::MIN <= instant <= i128::MAX,
    ensures
        match earliest_start(candidates, instant as i128, local_hour(zone, instant)) {
            Some(best) => is_earliest(zone, found, instant, best),
            None => forall|k: int|
                0 <= k < found.len() ==> !may_start(zone, #[trigger] found[k], instant),
        },
{
    let local = local_hour(zone, instant);
    lemma_earliest_start(candidates, instant as i128, local);
    assert forall|k: int|
        0 <= k < found.len() && may_start(zone, #[trigger] found[k], instant) implies earliest_start(
        candidates,
        instant as i128,
        local,
    ) matches Some(best) && best <= found[k]->0 by {
        let i = choose|i: int|
            0 <= i < candidates.len() && (#[trigger] candidates[i]).instant == found[k]->0;
        assert(candidates[i].local == local);
    }
    if let Some(best) = earliest_start(candidates, instant as i128, local) {
        let i = choose|i: int|
            0 <= i < candidates.len() && (#[trigger] candidates[i]).instant == best
                && candidates[i].local == local;
        let k = found.index_of(Some(candidates[i].instant));
        assert(found[k] == Some(best));
        assert(may_start(zone, found[k], instant));
    }
}

/// The hour of a message starts at the earliest of four instants that may be its start: the full
/// hour by either reading of the clock, the first change of offset from just before the message
/// on, and the last one before it. There is no time where none of them may be, at or before the
/// epoch, and behind the last instant.
pub proof fn lemma_hours_of_messages(zone: Seq<u8>, timestamp: i64)
    ensures
        ({
            let instant = timestamp * 1_000_000;
            let local = local_hour(zone, instant);
            let date = local.date;
            let earlier = zone_earlier(zone, date.year, date.month, date.day, local.hour);
            let later = zone_later(zone, date.year, date.month, date.day, local.hour);
            let following = zone_following(zone, (timestamp - 1) * 1_000_000);
            let preceding = zone_preceding(zone, instant);
            let found = seq![earlier, later, following, preceding];
            match message_time(zone, timestamp) {
                Ok(time) => {
                    &&& 1 <= timestamp <= 253_402_207_200_999
                    &&& time.local == local
                    &&& exists|start: i128| #[trigger]
                        is_earliest(zone, found, instant, start) && time.bucket_start_unix_ms
                            == whole_milliseconds(start as int) as i64
                },
                Err(error) => {
                    &&& error == RemoteUsageError::InvalidTimestamp
                    &&& timestamp < 1 || timestamp > 253_402_207_200_999 || !may_start(
                        zone,
                        earlier,
                        instant,
                    ) && !may_start(zone, later, instant) && !may_start(zone, following, instant)
                        && !may_start(zone, preceding, instant)
                },
            }
        }),
{
    let instant = timestamp * 1_000_000;
    let local = local_hour(zone, instant);
    let date = local.date;
    let earlier = zone_earlier(zone, date.year, date.month, date.day, local.hour);
    let later = zone_later(zone, date.year, date.month, date.day, local.hour);
    let following = zone_following(zone, (timestamp - 1) * 1_000_000);
    let preceding = zone_preceding(zone, instant);
    let found = seq![earlier, later, following, preceding];
    if 1 <= timestamp <= 253_402_207_200_999 {
        let candidates = hour_candidates(zone, instant, local);
        assert(whole_milliseconds(instant) == timestamp);
        let none = Seq::<Option<i128>>::empty();
        let one = with_candidate(Seq::empty(), zone, earlier);
        let two = with_candidate(one, zone, later);
        let three = with_candidate(two, zone, following);
        assert(candidates == with_candidate(three, zone, preceding));
        lemma_one_more_candidate(Seq::empty(), zone, none, earlier);
        lemma_one_more_candidate(one, zone, none.push(earlier), later);
        lemma_one_more_candidate(two, zone, none.push(earlier).push(later), following);
        lemma_one_more_candidate(
            three,
            zone,
            none.push(earlier).push(later).push(following),
            preceding,
        );
        assert(none.push(earlier).push(later).push(following).push(preceding) =~= found);
        lemma_earliest_of_found(candidates, zone, found, instant);
        assert(found[0] == earlier && found[1] == later && found[2] == following && found[3]
            == preceding);
    }
}

// ---------------------------------------------------------------------------
// Reports
// ---------------------------------------------------------------------------
proof fn lemma_picked_origins<A, B>(list: Seq<A>, pick: spec_fn(A) -> Option<B>) -> (origins: Seq<
    int,
>)
    ensures
        origins.len() == picked(list, pick).len(),
        forall|k: int|
            0 <= k < origins.len() ==> 0 <= #[trigger] origins[k] < list.len() && pick(
                list[origins[k]],
            ) == Some(picked(list, pick)[k]),
        forall|k: int, l: int|
            0 <= k < l < origins.len() ==> #[trigger] origins[k] < #[trigger] origins[l],
        forall|at: int|
            0 <= at < list.len() ==> (#[trigger] origins.contains(at) <==> pick(list[at]) is Some),
    decreases list.len(),
{
    if list.len() == 0 {
        Seq::empty()
    } else {
        let before = list.drop_last();
        let last = list.len() - 1;
        let earlier = lemma_picked_origins(before, pick);
        assert forall|i: int| 0 <= i < before.len() implies before[i] == list[i] by {}
        let origins = if pick(list.last()) is Some {
            earlier.push(last)
        } else {
            earlier
        };
        assert forall|at: int| 0 <= at < list.len() implies (#[trigger] origins.contains(at)
            <==> pick(list[at]) is Some) by {
            if at < last {
                assert(earlier.contains(at) <==> pick(before[at]) is Some);
                if earlier.contains(at) {
                    assert(origins[earlier.index_of(at)] == at);
                }
                if origins.contains(at) {
                    assert(earlier[origins.index_of(at)] == at);
                }
            } else {
                if pick(list.last()) is Some {
                    assert(origins[earlier.len() as int] == last);
                }
                if earlier.contains(at) {
                    assert(earlier[earlier.index_of(at)] == at);
                }
            }
        }
        origins
    }
}

/// A report is that of the messages that count, each once and in their order. The origins are
/// their positions.
pub proof fn lemma_reports_are_of_counted_messages(
    reports: Seq<ReportModel>,
    query: QueryModel,
    bundle: BundleModel,
) -> (kept: (Seq<Kept>, Seq<int>))
    requires
        report_of(reports, query) == Ok::<BundleModel, RemoteUsageError>(bundle),
    ensures
        finished(kept.0) == Ok::<BundleModel, RemoteUsageError>(bundle),
        kept.0.len() == kept.1.len(),
        fold_of(query) is Ok,
        forall|k: int|
            0 <= k < kept.1.len() ==> {
                let fold = fold_of(query)->Ok_0;
                &&& 0 <= #[trigger] kept.1[k] < reports.len()
                &&& reading(
                    fold.zone,
                    fold.start_date,
                    fold.end_date_exclusive,
                    reports[kept.1[k]],
                ) == Ok::<Option<Kept>, RemoteUsageError>(Some(kept.0[k]))
            },
        forall|k: int, l: int|
            0 <= k < l < kept.1.len() ==> #[trigger] kept.1[k] < #[trigger] kept.1[l],
        forall|at: int|
            0 <= at < reports.len() ==> (#[trigger] kept.1.contains(at) <==> counts(
                query,
                reports[at],
            )),
{
    let fold = fold_of(query)->Ok_0;
    lemma_steps_in_order(fold, reports);
    let all = picked(reports, kept_by(fold));
    let origins = lemma_picked_origins(reports, kept_by(fold));
    (all, origins)
}

/// Every message that counts has a record on every page: of its local date on the graph page, of
/// its local hour on the hourly page, of its agent as it is shown on the agents page, and on each
/// of its client.
pub proof fn lemma_records_of_a_message(
    reports: Seq<ReportModel>,
    query: QueryModel,
    bundle: RemoteUsageBundleV1,
    at: int,
) -> (places: (int, int, int, int))
    requires
        report_of(reports, query) == Ok::<BundleModel, RemoteUsageError>(bundle@),
        0 <= at < reports.len(),
        counts(query, reports[at]),
    ensures
        ({
            let report = reports[at];
            let (graph, models, hourly, agents) = places;
            let time = message_time(fold_of(query)->Ok_0.zone, report.message.timestamp)->Ok_0;
            &&& 0 <= graph < bundle.graph@.len()
            &&& bundle.graph@[graph].date@ == time.local.date.text()
            &&& bundle.graph@[graph].client@ == report.message.client
            &&& 0 <= models < bundle.models@.len()
            &&& bundle.models@[models].client@ == report.message.client
            &&& 0 <= hourly < bundle.hourly@.len()
            &&& bundle.hourly@[hourly].bucket_start_unix_ms == time.bucket_start_unix_ms
            &&& bundle.hourly@[hourly].utc_offset_seconds == time.local.offset
            &&& bundle.hourly@[hourly].client@ == report.message.client
            &&& 0 <= agents < bundle.agents@.len()
            &&& is_shown_agent(report, bundle.agents@[agents].agent@)
            &&& bundle.agents@[agents].client@ == report.message.client
        }),
{
    let (kept, origins) = lemma_reports_are_of_counted_messages(reports, query, bundle@);
    assert(origins.contains(at));
    let k = origins.index_of(at);
    assert(origins[k] == at);
    let fold = fold_of(query)->Ok_0;
    let time = message_time(fold.zone, reports[at].message.timestamp)->Ok_0;
    lemma_what_is_kept_of_a_message(
        reports[at],
        time,
        fold.start_date,
        fold.end_date_exclusive,
        kept[k],
    );
    let graph = lemma_every_message_has_a_record(kept, bundle@, PageKind::Graph, k);
    let models = lemma_every_message_has_a_record(kept, bundle@, PageKind::Models, k);
    let hourly = lemma_every_message_has_a_record(kept, bundle@, PageKind::Hourly, k);
    let agents = lemma_every_message_has_a_record(kept, bundle@, PageKind::Agents, k);
    assert(bundle@.graph.len() == bundle.graph@.len() && bundle@.graph[graph]
        == bundle.graph@[graph]@);
    assert(bundle@.models.len() == bundle.models@.len() && bundle@.models[models]
        == bundle.models@[models]@);
    assert(bundle@.hourly.len() == bundle.hourly@.len() && bundle@.hourly[hourly]
        == bundle.hourly@[hourly]@);
    assert(bundle@.agents.len() == bundle.agents@.len() && bundle@.agents[agents]
        == bundle.agents@[agents]@);
    (graph, models, hourly, agents)
}

/// A record is of one agent, one date and one hour: messages that belong to the same record of a
/// page agree in what the page is about, and in client, model and provider.
pub proof fn lemma_a_record_is_of_one_kind(
    kept: Seq<Kept>,
    bundle: RemoteUsageBundleV1,
    page: PageKind,
    i: int,
    first: int,
    second: int,
)
    requires
        finished(kept) == Ok::<BundleModel, RemoteUsageError>(bundle@),
        0 <= first < kept.len(),
        0 <= second < kept.len(),
        0 <= i < page_in(bundle@, page).len(),
        belongs(kept[first], page_in(bundle@, page)[i], page),
        belongs(kept[second], page_in(bundle@, page)[i], page),
    ensures
        page is Agents ==> bundle.agents@[i].agent@ == kept[first].agent && kept[first].agent
            == kept[second].agent,
        page is Graph ==> bundle.graph@[i].date@ == kept[first].date && kept[first].date
            == kept[second].date,
        page is Hourly ==> kept[first].bucket_start_unix_ms == kept[second].bucket_start_unix_ms
            && kept[first].utc_offset_seconds == kept[second].utc_offset_seconds,
        kept[first].client == kept[second].client,
        kept[first].model == kept[second].model,
        kept[first].provider == kept[second].provider,
{
    if page is Agents {
        assert(bundle@.agents[i] == bundle.agents@[i]@);
    }
    if page is Graph {
        assert(bundle@.graph[i] == bundle.graph@[i]@);
    }
}

} // verus!
