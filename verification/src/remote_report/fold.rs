//! The fold: messages one by one, then the pages.
use jiff::tz::TimeZone;
use vstd::prelude::*;

use crate::calendar::{zone_data, CivilDate};
use crate::messages::{copy_text, text_of};
use crate::remote_report::error::{
    RemoteUsageError, MAX_LABEL_BYTES, MAX_MESSAGES, MAX_OUTPUT_STRING_BYTES, MAX_RECORDS,
    REMOTE_TZDB_REVISION,
};
use crate::remote_report::message::{
    message_time, prepare_message, prepared, read_message_time, Kept, MessageTime,
    PreparedMessage, ReportMessage, ReportModel,
};
use crate::remote_report::pages::{
    capped, has_key, lemma_entry_added, overflowing, page_of, records_bytes, token_total, totals_of,
    Amounts, KeyModel, Page, RecordKey, RecordModel,
};
use crate::remote_report::query::{
    bundled_timezone, byte_len, query_dates, query_zone, validate_query, QueryModel,
    RemoteUsageQueryV1,
};

verus! {

// ---------------------------------------------------------------------------
// Records
// ---------------------------------------------------------------------------
/// Usage by date, client, model and provider.
#[derive(Clone, Debug, PartialEq, Eq)]
pub struct RemoteGraphRecordV1 {
    pub date: String,
    pub client: String,
    pub model: Option<String>,
    pub provider: Option<String>,
    pub input_tokens: u64,
    pub output_tokens: u64,
    pub cache_read_tokens: u64,
    pub cache_write_tokens: u64,
    pub reasoning_tokens: u64,
    pub total_tokens: u64,
    pub message_count: u64,
    pub turn_count: u64,
    pub cost_nano_usd: u64,
}

/// Usage by client, model and provider, with the messages whose duration is known.
#[derive(Clone, Debug, PartialEq, Eq)]
pub struct RemoteModelsRecordV1 {
    pub client: String,
    pub model: Option<String>,
    pub provider: Option<String>,
    pub input_tokens: u64,
    pub output_tokens: u64,
    pub cache_read_tokens: u64,
    pub cache_write_tokens: u64,
    pub reasoning_tokens: u64,
    pub total_tokens: u64,
    pub message_count: u64,
    pub turn_count: u64,
    pub cost_nano_usd: u64,
    pub duration_millis: u64,
    pub timed_tokens: u64,
    pub sample_count: u64,
}

/// Usage by local hour, client, model and provider.
#[derive(Clone, Debug, PartialEq, Eq)]
pub struct RemoteHourlyRecordV1 {
    pub bucket_start_unix_ms: i64,
    pub utc_offset_seconds: i32,
    pub client: String,
    pub model: Option<String>,
    pub provider: Option<String>,
    pub input_tokens: u64,
    pub output_tokens: u64,
    pub cache_read_tokens: u64,
    pub cache_write_tokens: u64,
    pub reasoning_tokens: u64,
    pub total_tokens: u64,
    pub message_count: u64,
    pub turn_count: u64,
    pub cost_nano_usd: u64,
}

/// Usage by agent, client, model and provider.
#[derive(Clone, Debug, PartialEq, Eq)]
pub struct RemoteAgentsRecordV1 {
    pub agent: String,
    pub client: String,
    pub model: Option<String>,
    pub provider: Option<String>,
    pub input_tokens: u64,
    pub output_tokens: u64,
    pub cache_read_tokens: u64,
    pub cache_write_tokens: u64,
    pub reasoning_tokens: u64,
    pub total_tokens: u64,
    pub message_count: u64,
    pub turn_count: u64,
    pub cost_nano_usd: u64,
}

/// A report.
#[derive(Clone, Debug, PartialEq, Eq)]
pub struct RemoteUsageBundleV1 {
    pub tzdb_revision: String,
    pub graph: Vec<RemoteGraphRecordV1>,
    pub models: Vec<RemoteModelsRecordV1>,
    pub hourly: Vec<RemoteHourlyRecordV1>,
    pub agents: Vec<RemoteAgentsRecordV1>,
    pub saturated: bool,
}

impl View for RemoteGraphRecordV1 {
    type V = RecordModel;

    open spec fn view(&self) -> RecordModel {
        RecordModel {
            key: KeyModel {
                start: 0,
                offset: 0,
                label: self.date@,
                client: self.client@,
                model: text_of(self.model),
                provider: text_of(self.provider),
            },
            amounts: Amounts {
                input_tokens: self.input_tokens,
                output_tokens: self.output_tokens,
                cache_read_tokens: self.cache_read_tokens,
                cache_write_tokens: self.cache_write_tokens,
                reasoning_tokens: self.reasoning_tokens,
                message_count: self.message_count,
                turn_count: self.turn_count,
                cost_nano_usd: self.cost_nano_usd,
                duration_millis: 0,
                timed_tokens: 0,
                sample_count: 0,
            },
            total_tokens: self.total_tokens,
        }
    }
}

impl View for RemoteModelsRecordV1 {
    type V = RecordModel;

    open spec fn view(&self) -> RecordModel {
        RecordModel {
            key: KeyModel {
                start: 0,
                offset: 0,
                label: Seq::empty(),
                client: self.client@,
                model: text_of(self.model),
                provider: text_of(self.provider),
            },
            amounts: Amounts {
                input_tokens: self.input_tokens,
                output_tokens: self.output_tokens,
                cache_read_tokens: self.cache_read_tokens,
                cache_write_tokens: self.cache_write_tokens,
                reasoning_tokens: self.reasoning_tokens,
                message_count: self.message_count,
                turn_count: self.turn_count,
                cost_nano_usd: self.cost_nano_usd,
                duration_millis: self.duration_millis,
                timed_tokens: self.timed_tokens,
                sample_count: self.sample_count,
            },
            total_tokens: self.total_tokens,
        }
    }
}

impl View for RemoteHourlyRecordV1 {
    type V = RecordModel;

    open spec fn view(&self) -> RecordModel {
        RecordModel {
            key: KeyModel {
                start: self.bucket_start_unix_ms,
                offset: self.utc_offset_seconds,
                label: Seq::empty(),
                client: self.client@,
                model: text_of(self.model),
                provider: text_of(self.provider),
            },
            amounts: Amounts {
                input_tokens: self.input_tokens,
                output_tokens: self.output_tokens,
                cache_read_tokens: self.cache_read_tokens,
                cache_write_tokens: self.cache_write_tokens,
                reasoning_tokens: self.reasoning_tokens,
                message_count: self.message_count,
                turn_count: self.turn_count,
                cost_nano_usd: self.cost_nano_usd,
                duration_millis: 0,
                timed_tokens: 0,
                sample_count: 0,
            },
            total_tokens: self.total_tokens,
        }
    }
}

impl View for RemoteAgentsRecordV1 {
    type V = RecordModel;

    open spec fn view(&self) -> RecordModel {
        RecordModel {
            key: KeyModel {
                start: 0,
                offset: 0,
                label: self.agent@,
                client: self.client@,
                model: text_of(self.model),
                provider: text_of(self.provider),
            },
            amounts: Amounts {
                input_tokens: self.input_tokens,
                output_tokens: self.output_tokens,
                cache_read_tokens: self.cache_read_tokens,
                cache_write_tokens: self.cache_write_tokens,
                reasoning_tokens: self.reasoning_tokens,
                message_count: self.message_count,
                turn_count: self.turn_count,
                cost_nano_usd: self.cost_nano_usd,
                duration_millis: 0,
                timed_tokens: 0,
                sample_count: 0,
            },
            total_tokens: self.total_tokens,
        }
    }
}

// ---------------------------------------------------------------------------
// Pages of kept messages
// ---------------------------------------------------------------------------
/// The four pages.
pub ghost enum PageKind {
    Graph,
    Models,
    Hourly,
    Agents,
}

/// The key of a message on a page.
pub open spec fn key_on(kept: Kept, page: PageKind) -> KeyModel {
    KeyModel {
        start: if page is Hourly {
            kept.bucket_start_unix_ms
        } else {
            0
        },
        offset: if page is Hourly {
            kept.utc_offset_seconds
        } else {
            0
        },
        label: match page {
            PageKind::Graph => kept.date,
            PageKind::Agents => kept.agent,
            _ => Seq::empty(),
        },
        client: kept.client,
        model: kept.model,
        provider: kept.provider,
    }
}

/// What a message adds to its record on a page.
pub open spec fn amounts_on(kept: Kept, page: PageKind) -> Amounts {
    if page is Models {
        kept.numerators.timed_amounts()
    } else {
        kept.numerators.amounts()
    }
}

/// What the messages add to a page.
pub open spec fn entries_on(kept: Seq<Kept>, page: PageKind) -> Seq<(KeyModel, Amounts)> {
    kept.map_values(|message: Kept| (key_on(message, page), amounts_on(message, page)))
}

/// The records of a page.
pub open spec fn records_on(kept: Seq<Kept>, page: PageKind) -> Seq<RecordModel> {
    page_of(entries_on(kept, page))
}

/// A report with texts as characters.
pub ghost struct BundleModel {
    pub graph: Seq<RecordModel>,
    pub models: Seq<RecordModel>,
    pub hourly: Seq<RecordModel>,
    pub agents: Seq<RecordModel>,
    pub saturated: bool,
}

impl View for RemoteUsageBundleV1 {
    type V = BundleModel;

    open spec fn view(&self) -> BundleModel {
        BundleModel {
            graph: self.graph@.map_values(|record: RemoteGraphRecordV1| record@),
            models: self.models@.map_values(|record: RemoteModelsRecordV1| record@),
            hourly: self.hourly@.map_values(|record: RemoteHourlyRecordV1| record@),
            agents: self.agents@.map_values(|record: RemoteAgentsRecordV1| record@),
            saturated: self.saturated,
        }
    }
}

/// Whether some number of the report is below its exact total.
pub open spec fn some_total_capped(kept: Seq<Kept>) -> bool {
    ||| overflowing(entries_on(kept, PageKind::Graph))
    ||| overflowing(entries_on(kept, PageKind::Models))
    ||| overflowing(entries_on(kept, PageKind::Hourly))
    ||| overflowing(entries_on(kept, PageKind::Agents))
}

/// The report of kept messages.
pub open spec fn bundle_of(kept: Seq<Kept>) -> BundleModel {
    BundleModel {
        graph: records_on(kept, PageKind::Graph),
        models: records_on(kept, PageKind::Models),
        hourly: records_on(kept, PageKind::Hourly),
        agents: records_on(kept, PageKind::Agents),
        saturated: some_total_capped(kept),
    }
}

/// Whether the texts of a page are too long to be sent.
pub open spec fn too_long(kept: Seq<Kept>) -> bool {
    ||| records_bytes(records_on(kept, PageKind::Graph)) > MAX_OUTPUT_STRING_BYTES
    ||| records_bytes(records_on(kept, PageKind::Models)) > MAX_OUTPUT_STRING_BYTES
    ||| records_bytes(records_on(kept, PageKind::Hourly)) > MAX_OUTPUT_STRING_BYTES
    ||| records_bytes(records_on(kept, PageKind::Agents)) > MAX_OUTPUT_STRING_BYTES
}

// ---------------------------------------------------------------------------
// Steps
// ---------------------------------------------------------------------------
/// What a fold has read.
pub ghost struct FoldModel {
    /// The TZif data of the time zone.
    pub zone: Seq<u8>,
    pub start_date: CivilDate,
    pub end_date_exclusive: CivilDate,
    /// How many messages were read.
    pub messages: nat,
    /// How many bytes the labels of the kept messages have.
    pub label_bytes: nat,
    pub kept: Seq<Kept>,
}

/// The bytes of a list of labels on top of a total, and whether they stay below the limit: the
/// first label that does not is the last that counts.
pub open spec fn charge(total: nat, labels: Seq<Seq<char>>) -> (nat, bool)
    decreases labels.len(),
{
    if labels.len() == 0 {
        (total, true)
    } else {
        let sum = total + byte_len(labels[0]) as nat;
        if sum > usize::MAX {
            (total, false)
        } else if sum > MAX_LABEL_BYTES {
            (sum, false)
        } else {
            charge(sum, labels.drop_first())
        }
    }
}

/// An optional label as a list.
pub open spec fn optional_label(label: Option<Seq<char>>) -> Seq<Seq<char>> {
    match label {
        Some(label) => seq![label],
        None => Seq::empty(),
    }
}

/// The labels of a message.
pub open spec fn labels_of(kept: Kept) -> Seq<Seq<char>> {
    seq![kept.client] + optional_label(kept.model) + optional_label(kept.provider) + seq![
        kept.agent,
    ]
}

/// Reads one message whose time was read: what the fold has read then, and whether the message
/// is in order.
pub open spec fn step_at(
    fold: FoldModel,
    report: ReportModel,
    time: Result<MessageTime, RemoteUsageError>,
) -> (FoldModel, Result<(), RemoteUsageError>) {
    let counted = FoldModel {
        messages: if fold.messages < usize::MAX {
            fold.messages + 1
        } else {
            fold.messages
        },
        ..fold
    };
    if fold.messages + 1 > MAX_MESSAGES {
        (counted, Err(RemoteUsageError::LimitExceeded))
    } else {
        match time {
            Err(error) => (counted, Err(error)),
            Ok(time) => match prepared(report, time, fold.start_date, fold.end_date_exclusive) {
                Err(error) => (counted, Err(error)),
                Ok(None) => (counted, Ok(())),
                Ok(Some(kept)) => {
                    let (label_bytes, within) = charge(fold.label_bytes, labels_of(kept));
                    let charged = FoldModel { label_bytes, ..counted };
                    if within {
                        (FoldModel { kept: fold.kept.push(kept), ..charged }, Ok(()))
                    } else {
                        (charged, Err(RemoteUsageError::LimitExceeded))
                    }
                },
            },
        }
    }
}

/// Reads one message by the clock of the fold's time zone.
pub open spec fn step(fold: FoldModel, report: ReportModel) -> (
    FoldModel,
    Result<(), RemoteUsageError>,
) {
    step_at(fold, report, message_time(fold.zone, report.message.timestamp))
}

/// Reads messages up to the first that is not in order.
pub open spec fn steps(fold: FoldModel, reports: Seq<ReportModel>) -> (
    FoldModel,
    Result<(), RemoteUsageError>,
)
    decreases reports.len(),
{
    if reports.len() == 0 {
        (fold, Ok(()))
    } else {
        match steps(fold, reports.drop_last()) {
            (before, Ok(())) => step(before, reports.last()),
            failed => failed,
        }
    }
}

/// A fold that has read nothing.
pub open spec fn fold_of(query: QueryModel) -> Result<FoldModel, RemoteUsageError> {
    match query_dates(query) {
        Err(error) => Err(error),
        Ok((start_date, end_date_exclusive)) => match query_zone(query.timezone) {
            Err(error) => Err(error),
            Ok(zone) => Ok(
                FoldModel {
                    zone,
                    start_date,
                    end_date_exclusive,
                    messages: 0,
                    label_bytes: 0,
                    kept: Seq::empty(),
                },
            ),
        },
    }
}

/// The report of what a fold has read.
pub open spec fn finished(kept: Seq<Kept>) -> Result<BundleModel, RemoteUsageError> {
    if too_long(kept) {
        Err(RemoteUsageError::LimitExceeded)
    } else {
        Ok(bundle_of(kept))
    }
}

/// The report of messages on a query.
pub open spec fn report_of(reports: Seq<ReportModel>, query: QueryModel) -> Result<
    BundleModel,
    RemoteUsageError,
> {
    match fold_of(query) {
        Err(error) => Err(error),
        Ok(fold) => if reports.len() > MAX_MESSAGES {
            Err(RemoteUsageError::LimitExceeded)
        } else {
            match steps(fold, reports) {
                (_, Err(error)) => Err(error),
                (fold, Ok(())) => finished(fold.kept),
            }
        },
    }
}

// ---------------------------------------------------------------------------
// Accumulation
// ---------------------------------------------------------------------------
/// Adds the bytes of a label to a total, and tells whether the total stays below the limit.
fn add_label_bytes(total: &mut usize, label: &str) -> (added: Result<(), RemoteUsageError>)
    ensures
        ({
            let sum = *old(total) + byte_len(label@);
            if sum > usize::MAX {
                *final(total) == *old(total) && added == Err::<(), RemoteUsageError>(
                    RemoteUsageError::LimitExceeded,
                )
            } else if sum > MAX_LABEL_BYTES {
                *final(total) == sum && added == Err::<(), RemoteUsageError>(
                    RemoteUsageError::LimitExceeded,
                )
            } else {
                *final(total) == sum && added == Ok::<(), RemoteUsageError>(())
            }
        }),
{
    match total.checked_add(label.as_bytes().len()) {
        None => Err(RemoteUsageError::LimitExceeded),
        Some(sum) => {
            *total = sum;
            if sum > MAX_LABEL_BYTES {
                Err(RemoteUsageError::LimitExceeded)
            } else {
                Ok(())
            }
        },
    }
}

proof fn lemma_charge_first(total: nat, first: Seq<char>, rest: Seq<Seq<char>>)
    ensures
        ({
            let sum = total + byte_len(first) as nat;
            charge(total, seq![first] + rest) == (if sum > usize::MAX {
                (total, false)
            } else if sum > MAX_LABEL_BYTES {
                (sum, false)
            } else {
                charge(sum, rest)
            })
        }),
{
    assert((seq![first] + rest).drop_first() =~= rest);
}

/// Adds the bytes of a message's labels to a total.
fn add_labels(total: &mut usize, message: &PreparedMessage) -> (added: Result<
    (),
    RemoteUsageError,
>)
    ensures
        ({
            let (sum, within) = charge(*old(total) as nat, labels_of(message@));
            *final(total) == sum && added == (if within {
                Ok::<(), RemoteUsageError>(())
            } else {
                Err(RemoteUsageError::LimitExceeded)
            })
        }),
{
    let ghost kept = message@;
    let ghost last = seq![kept.agent];
    let ghost behind_model = optional_label(kept.provider) + last;
    let ghost behind_client = optional_label(kept.model) + behind_model;
    proof {
        assert(labels_of(kept) =~= seq![kept.client] + behind_client);
        lemma_charge_first(*total as nat, kept.client, behind_client);
    }
    if let Err(error) = add_label_bytes(total, message.client.as_str()) {
        return Err(error);
    }
    if let Some(model) = &message.model {
        proof {
            lemma_charge_first(*total as nat, model@, behind_model);
        }
        if let Err(error) = add_label_bytes(total, model.as_str()) {
            return Err(error);
        }
    } else {
        assert(behind_client =~= behind_model);
    }
    if let Some(provider) = &message.provider {
        proof {
            lemma_charge_first(*total as nat, provider@, last);
        }
        if let Err(error) = add_label_bytes(total, provider.as_str()) {
            return Err(error);
        }
    } else {
        assert(behind_model =~= last);
    }
    proof {
        lemma_charge_first(*total as nat, kept.agent, Seq::empty());
        assert(last =~= seq![kept.agent] + Seq::<Seq<char>>::empty());
    }
    add_label_bytes(total, message.agent.as_str())
}

/// Whether a flag notes every total that was capped.
pub open spec fn notes(entries: Seq<(KeyModel, Amounts)>, noted: bool) -> bool {
    forall|key: KeyModel| (#[trigger] totals_of(entries, key)).exceeds() ==> noted
}

/// The pages so far.
pub struct RemoteUsageAccumulator {
    messages: usize,
    label_bytes: usize,
    graph: Page,
    models: Page,
    hourly: Page,
    agents: Page,
    saturated: bool,
    kept: Ghost<Seq<Kept>>,
}

impl RemoteUsageAccumulator {
    /// The messages that count.
    pub closed spec fn kept(self) -> Seq<Kept> {
        self.kept@
    }

    /// How many messages were read.
    pub closed spec fn messages(self) -> nat {
        self.messages as nat
    }

    /// How many bytes the labels have.
    pub closed spec fn label_bytes(self) -> nat {
        self.label_bytes as nat
    }

    /// What a fold with this accumulator has read.
    pub open spec fn model(
        self,
        zone: Seq<u8>,
        start_date: CivilDate,
        end_date_exclusive: CivilDate,
    ) -> FoldModel {
        FoldModel {
            zone,
            start_date,
            end_date_exclusive,
            messages: self.messages(),
            label_bytes: self.label_bytes(),
            kept: self.kept(),
        }
    }

    pub closed spec fn wf(self) -> bool {
        &&& self.graph.wf()
        &&& self.models.wf()
        &&& self.hourly.wf()
        &&& self.agents.wf()
        &&& self.graph.entries() == entries_on(self.kept@, PageKind::Graph)
        &&& self.models.entries() == entries_on(self.kept@, PageKind::Models)
        &&& self.hourly.entries() == entries_on(self.kept@, PageKind::Hourly)
        &&& self.agents.entries() == entries_on(self.kept@, PageKind::Agents)
        &&& self.kept@.len() <= self.messages
        &&& self.kept@.len() <= MAX_MESSAGES
        &&& notes(self.graph.entries(), self.saturated)
        &&& notes(self.models.entries(), self.saturated)
        &&& notes(self.hourly.entries(), self.saturated)
        &&& notes(self.agents.entries(), self.saturated)
        &&& self.saturated ==> some_total_capped(self.kept@)
    }

    /// Nothing was read.
    pub fn new() -> (accumulator: Self)
        ensures
            accumulator.wf(),
            accumulator.kept() == Seq::<Kept>::empty(),
            accumulator.messages() == 0,
            accumulator.label_bytes() == 0,
    {
        let accumulator = RemoteUsageAccumulator {
            messages: 0,
            label_bytes: 0,
            graph: Page::new(),
            models: Page::new(),
            hourly: Page::new(),
            agents: Page::new(),
            saturated: false,
            kept: Ghost(Seq::empty()),
        };
        proof {
            let none = Seq::<Kept>::empty();
            assert(entries_on(none, PageKind::Graph) =~= Seq::empty());
            assert(entries_on(none, PageKind::Models) =~= Seq::empty());
            assert(entries_on(none, PageKind::Hourly) =~= Seq::empty());
            assert(entries_on(none, PageKind::Agents) =~= Seq::empty());
        }
        accumulator
    }

    /// Adds a message to its record on every page.
    fn keep(&mut self, message: PreparedMessage)
        requires
            old(self).wf(),
            old(self).kept().len() < MAX_MESSAGES,
            old(self).kept().len() < old(self).messages(),
        ensures
            final(self).wf(),
            final(self).kept() == old(self).kept().push(message@),
            final(self).messages() == old(self).messages(),
            final(self).label_bytes() == old(self).label_bytes(),
    {
        let ghost kept = message@;
        let ghost before = self.kept@;
        let ghost after = self.kept@.push(kept);
        let (amounts, timed) = message.numerators.read_amounts(&mut self.saturated);
        proof {
            lemma_entry_added(entries_on(before, PageKind::Graph), key_on(kept, PageKind::Graph), amounts);
            lemma_entry_added(entries_on(before, PageKind::Models), key_on(kept, PageKind::Models), timed);
            lemma_entry_added(entries_on(before, PageKind::Hourly), key_on(kept, PageKind::Hourly), amounts);
            lemma_entry_added(entries_on(before, PageKind::Agents), key_on(kept, PageKind::Agents), amounts);
            lemma_entries_push(before, kept, PageKind::Graph);
            lemma_entries_push(before, kept, PageKind::Models);
            lemma_entries_push(before, kept, PageKind::Hourly);
            lemma_entries_push(before, kept, PageKind::Agents);
        }
        self.graph.record(
            RecordKey {
                start: 0,
                offset: 0,
                label: message.date_text,
                client: message.client.clone(),
                model: copy_text(&message.model),
                provider: copy_text(&message.provider),
            },
            &amounts,
            &mut self.saturated,
        );
        self.hourly.record(
            RecordKey {
                start: message.bucket_start_unix_ms,
                offset: message.utc_offset_seconds,
                label: String::new(),
                client: message.client.clone(),
                model: copy_text(&message.model),
                provider: copy_text(&message.provider),
            },
            &amounts,
            &mut self.saturated,
        );
        self.agents.record(
            RecordKey {
                start: 0,
                offset: 0,
                label: message.agent,
                client: message.client.clone(),
                model: copy_text(&message.model),
                provider: copy_text(&message.provider),
            },
            &amounts,
            &mut self.saturated,
        );
        self.models.record(
            RecordKey {
                start: 0,
                offset: 0,
                label: String::new(),
                client: message.client,
                model: message.model,
                provider: message.provider,
            },
            &timed,
            &mut self.saturated,
        );
        self.kept = Ghost(after);
    }
}

proof fn lemma_entries_push(kept: Seq<Kept>, message: Kept, page: PageKind)
    ensures
        entries_on(kept.push(message), page) == entries_on(kept, page).push(
            (key_on(message, page), amounts_on(message, page)),
        ),
{
    assert(entries_on(kept.push(message), page) =~= entries_on(kept, page).push(
        (key_on(message, page), amounts_on(message, page)),
    ));
}

impl RemoteUsageAccumulator {
    /// Reads one message whose time was read.
    pub fn add_at(
        &mut self,
        report: &ReportMessage,
        time: Result<MessageTime, RemoteUsageError>,
        start_date: CivilDate,
        end_date_exclusive: CivilDate,
    ) -> (read: Result<(), RemoteUsageError>)
        requires
            old(self).wf(),
            time matches Ok(time) ==> time.local.date.valid(),
        ensures
            final(self).wf(),
            (final(self).model(Seq::empty(), start_date, end_date_exclusive), read) == step_at(
                old(self).model(Seq::empty(), start_date, end_date_exclusive),
                report@,
                time,
            ),
    {
        match self.messages.checked_add(1) {
            None => return Err(RemoteUsageError::LimitExceeded),
            Some(messages) => {
                self.messages = messages;
            },
        }
        if self.messages > MAX_MESSAGES {
            return Err(RemoteUsageError::LimitExceeded);
        }
        let time = match time {
            Ok(time) => time,
            Err(error) => return Err(error),
        };
        let message = match prepare_message(report, time, start_date, end_date_exclusive) {
            Ok(Some(message)) => message,
            Ok(None) => return Ok(()),
            Err(error) => return Err(error),
        };
        if let Err(error) = add_labels(&mut self.label_bytes, &message) {
            return Err(error);
        }
        self.keep(message);
        Ok(())
    }

    /// Reads one message.
    fn add(
        &mut self,
        report: &ReportMessage,
        timezone: &TimeZone,
        start_date: CivilDate,
        end_date_exclusive: CivilDate,
    ) -> (read: Result<(), RemoteUsageError>)
        requires
            old(self).wf(),
        ensures
            final(self).wf(),
            (final(self).model(zone_data(*timezone), start_date, end_date_exclusive), read) == step(
                old(self).model(zone_data(*timezone), start_date, end_date_exclusive),
                report@,
            ),
    {
        let time = read_message_time(timezone, report.message.timestamp);
        self.add_at(report, time, start_date, end_date_exclusive)
    }
}

// ---------------------------------------------------------------------------
// Finishing
// ---------------------------------------------------------------------------
proof fn lemma_untimed_totals(kept: Seq<Kept>, page: PageKind, key: KeyModel)
    requires
        !(page is Models),
    ensures
        totals_of(entries_on(kept, page), key).duration_millis == 0,
        totals_of(entries_on(kept, page), key).timed_tokens == 0,
        totals_of(entries_on(kept, page), key).sample_count == 0,
    decreases kept.len(),
{
    if kept.len() > 0 {
        assert(entries_on(kept, page).drop_last() =~= entries_on(kept.drop_last(), page));
        lemma_untimed_totals(kept.drop_last(), page, key);
    }
}

/// Whether a key and amounts have nothing that a page does not show.
spec fn fits_page(kind: PageKind, key: KeyModel, amounts: Amounts) -> bool {
    &&& !(kind is Hourly) ==> key.start == 0 && key.offset == 0
    &&& kind is Hourly || kind is Models ==> key.label == Seq::<char>::empty()
    &&& !(kind is Models) ==> amounts.duration_millis == 0 && amounts.timed_tokens == 0
        && amounts.sample_count == 0
}

/// The unused parts of a page's records are zero or empty.
proof fn lemma_unused_parts(page: Page, kept: Seq<Kept>, kind: PageKind)
    requires
        page.wf(),
        page.entries() == entries_on(kept, kind),
    ensures
        forall|i: int|
            #![trigger page.keys()[i]]
            #![trigger page.values()[i]]
            0 <= i < page.keys().len() ==> fits_page(kind, page.keys()[i], page.values()[i]),
{
    page.lemma_page();
    let entries = page.entries();
    assert forall|i: int|
        #![trigger page.keys()[i]]
        #![trigger page.values()[i]]
        0 <= i < page.keys().len() implies fits_page(kind, page.keys()[i], page.values()[i]) by {
        let key = page.keys()[i];
        assert(has_key(entries, key));
        let e = choose|e: int| 0 <= e < entries.len() && (#[trigger] entries[e]).0 == key;
        assert(entries[e].0 == key_on(kept[e], kind));
        if !(kind is Models) {
            lemma_untimed_totals(kept, kind, key);
        }
        assert(page.values()[i] == totals_of(entries, key).capped());
    }
}

/// Whether the token sum of a record up to a position was capped.
pub open spec fn sum_capped(page: Page, upto: int) -> bool {
    exists|i: int|
        0 <= i < upto && i < page.keys().len() && (#[trigger] page.values()[i]).token_sum()
            > u64::MAX
}

/// A record of one of the pages.
trait PageRecord: View<V = RecordModel> + Sized {
    /// The page that has such records.
    spec fn page() -> PageKind;

    /// Makes the record of a key.
    fn make(key: &RecordKey, amounts: &Amounts, total_tokens: u64) -> (record: Self)
        requires
            fits_page(Self::page(), key@, *amounts),
        ensures
            record@ == (RecordModel { key: key@, amounts: *amounts, total_tokens }),
    ;
}

impl PageRecord for RemoteGraphRecordV1 {
    spec fn page() -> PageKind {
        PageKind::Graph
    }

    fn make(key: &RecordKey, amounts: &Amounts, total_tokens: u64) -> (record: Self) {
        RemoteGraphRecordV1 {
            date: key.label.clone(),
            client: key.client.clone(),
            model: copy_text(&key.model),
            provider: copy_text(&key.provider),
            input_tokens: amounts.input_tokens,
            output_tokens: amounts.output_tokens,
            cache_read_tokens: amounts.cache_read_tokens,
            cache_write_tokens: amounts.cache_write_tokens,
            reasoning_tokens: amounts.reasoning_tokens,
            total_tokens,
            message_count: amounts.message_count,
            turn_count: amounts.turn_count,
            cost_nano_usd: amounts.cost_nano_usd,
        }
    }
}

impl PageRecord for RemoteModelsRecordV1 {
    spec fn page() -> PageKind {
        PageKind::Models
    }

    fn make(key: &RecordKey, amounts: &Amounts, total_tokens: u64) -> (record: Self) {
        RemoteModelsRecordV1 {
            client: key.client.clone(),
            model: copy_text(&key.model),
            provider: copy_text(&key.provider),
            input_tokens: amounts.input_tokens,
            output_tokens: amounts.output_tokens,
            cache_read_tokens: amounts.cache_read_tokens,
            cache_write_tokens: amounts.cache_write_tokens,
            reasoning_tokens: amounts.reasoning_tokens,
            total_tokens,
            message_count: amounts.message_count,
            turn_count: amounts.turn_count,
            cost_nano_usd: amounts.cost_nano_usd,
            duration_millis: amounts.duration_millis,
            timed_tokens: amounts.timed_tokens,
            sample_count: amounts.sample_count,
        }
    }
}

impl PageRecord for RemoteHourlyRecordV1 {
    spec fn page() -> PageKind {
        PageKind::Hourly
    }

    fn make(key: &RecordKey, amounts: &Amounts, total_tokens: u64) -> (record: Self) {
        RemoteHourlyRecordV1 {
            bucket_start_unix_ms: key.start,
            utc_offset_seconds: key.offset,
            client: key.client.clone(),
            model: copy_text(&key.model),
            provider: copy_text(&key.provider),
            input_tokens: amounts.input_tokens,
            output_tokens: amounts.output_tokens,
            cache_read_tokens: amounts.cache_read_tokens,
            cache_write_tokens: amounts.cache_write_tokens,
            reasoning_tokens: amounts.reasoning_tokens,
            total_tokens,
            message_count: amounts.message_count,
            turn_count: amounts.turn_count,
            cost_nano_usd: amounts.cost_nano_usd,
        }
    }
}

impl PageRecord for RemoteAgentsRecordV1 {
    spec fn page() -> PageKind {
        PageKind::Agents
    }

    fn make(key: &RecordKey, amounts: &Amounts, total_tokens: u64) -> (record: Self) {
        RemoteAgentsRecordV1 {
            agent: key.label.clone(),
            client: key.client.clone(),
            model: copy_text(&key.model),
            provider: copy_text(&key.provider),
            input_tokens: amounts.input_tokens,
            output_tokens: amounts.output_tokens,
            cache_read_tokens: amounts.cache_read_tokens,
            cache_write_tokens: amounts.cache_write_tokens,
            reasoning_tokens: amounts.reasoning_tokens,
            total_tokens,
            message_count: amounts.message_count,
            turn_count: amounts.turn_count,
            cost_nano_usd: amounts.cost_nano_usd,
        }
    }
}

/// Makes the records of a page, and notes whether a token sum was capped.
fn build_records<R: PageRecord>(page: &Page, saturated: &mut bool, kept: Ghost<Seq<Kept>>) -> (records:
    Vec<R>)
    requires
        page.wf(),
        page.entries() == entries_on(kept@, R::page()),
    ensures
        records@.map_values(|record: R| record@) == page.records(),
        *final(saturated) == (*old(saturated) || sum_capped(*page, page.keys().len() as int)),
{
    proof {
        lemma_unused_parts(*page, kept@, R::page());
        page.lemma_page();
    }
    let mut records: Vec<R> = Vec::new();
    let mut i: usize = 0;
    while i < page.len()
        invariant
            page.wf(),
            page.keys().len() == page.values().len(),
            i <= page.keys().len(),
            records@.len() == i,
            forall|j: int|
                #![trigger page.keys()[j]]
                #![trigger page.values()[j]]
                0 <= j < page.keys().len() ==> fits_page(
                    R::page(),
                    page.keys()[j],
                    page.values()[j],
                ),
            forall|j: int| 0 <= j < i ==> (#[trigger] records@[j])@ == page.records()[j],
            *saturated == (*old(saturated) || sum_capped(*page, i as int)),
        decreases page.keys().len() - i,
    {
        let (key, amounts) = page.record_at(i);
        let total_tokens: u64 = token_total(amounts, saturated);
        proof {
            assert(page.keys()[i as int] == key@);
            assert(page.values()[i as int] == *amounts);
        }
        records.push(R::make(key, amounts, total_tokens));
        i = i + 1;
    }
    assert(records@.map_values(|record: R| record@) =~= page.records());
    records
}

impl RemoteUsageAccumulator {
    /// Makes the report of what was read.
    pub fn finish(self) -> (bundle: Result<RemoteUsageBundleV1, RemoteUsageError>)
        requires
            self.wf(),
        ensures
            match bundle {
                Ok(bundle) => finished(self.kept()) == Ok::<BundleModel, RemoteUsageError>(bundle@)
                    && bundle.tzdb_revision@ == REMOTE_TZDB_REVISION@ && bundle.graph@.len()
                    <= MAX_RECORDS && bundle.models@.len() <= MAX_RECORDS && bundle.hourly@.len()
                    <= MAX_RECORDS && bundle.agents@.len() <= MAX_RECORDS,
                Err(error) => finished(self.kept()) == Err::<BundleModel, RemoteUsageError>(error),
            },
    {
        if self.graph.exceeds_bytes(MAX_OUTPUT_STRING_BYTES) || self.models.exceeds_bytes(
            MAX_OUTPUT_STRING_BYTES,
        ) || self.hourly.exceeds_bytes(MAX_OUTPUT_STRING_BYTES) || self.agents.exceeds_bytes(
            MAX_OUTPUT_STRING_BYTES,
        ) {
            return Err(RemoteUsageError::LimitExceeded);
        }
        proof {
            self.graph.lemma_records();
            self.models.lemma_records();
            self.hourly.lemma_records();
            self.agents.lemma_records();
            self.graph.lemma_overflow_noted(self.saturated);
            self.models.lemma_overflow_noted(self.saturated);
            self.hourly.lemma_overflow_noted(self.saturated);
            self.agents.lemma_overflow_noted(self.saturated);
        }
        let mut saturated = self.saturated;
        let graph = build_records::<RemoteGraphRecordV1>(&self.graph, &mut saturated, self.kept);
        let models = build_records::<RemoteModelsRecordV1>(&self.models, &mut saturated, self.kept);
        let hourly = build_records::<RemoteHourlyRecordV1>(&self.hourly, &mut saturated, self.kept);
        let agents = build_records::<RemoteAgentsRecordV1>(&self.agents, &mut saturated, self.kept);
        let bundle = RemoteUsageBundleV1 {
            tzdb_revision: REMOTE_TZDB_REVISION.to_owned(),
            graph,
            models,
            hourly,
            agents,
            saturated,
        };
        proof {
            let kept = self.kept@;
            assert(bundle@.graph == records_on(kept, PageKind::Graph));
            assert(bundle@.models == records_on(kept, PageKind::Models));
            assert(bundle@.hourly == records_on(kept, PageKind::Hourly));
            assert(bundle@.agents == records_on(kept, PageKind::Agents));
            assert(bundle@.graph.len() == graph@.len());
            assert(bundle@.models.len() == models@.len());
            assert(bundle@.hourly.len() == hourly@.len());
            assert(bundle@.agents.len() == agents@.len());
            assert(saturated == some_total_capped(kept));
        }
        Ok(bundle)
    }
}

// ---------------------------------------------------------------------------
// The fold
// ---------------------------------------------------------------------------
/// A report in the making.
pub struct RemoteUsageFold {
    exact_clients: Option<Vec<String>>,
    timezone: TimeZone,
    start_date: CivilDate,
    end_date_exclusive: CivilDate,
    accumulator: RemoteUsageAccumulator,
}

impl View for RemoteUsageFold {
    type V = FoldModel;

    closed spec fn view(&self) -> FoldModel {
        self.accumulator.model(
            zone_data(self.timezone),
            self.start_date,
            self.end_date_exclusive,
        )
    }
}

/// The clients that a query selects: all, where it names none.
pub open spec fn exact_clients_of(query: QueryModel) -> Option<Seq<Seq<char>>> {
    if query.clients.len() == 0 {
        None
    } else {
        Some(query.clients)
    }
}

impl RemoteUsageFold {
    pub closed spec fn wf(self) -> bool {
        self.accumulator.wf()
    }

    /// The clients that the query selects.
    pub closed spec fn clients(self) -> Option<Seq<Seq<char>>> {
        match self.exact_clients {
            Some(clients) => Some(clients@.map_values(|client: String| client@)),
            None => None,
        }
    }

    /// Starts a report.
    pub fn new(query: &RemoteUsageQueryV1) -> (fold: Result<Self, RemoteUsageError>)
        ensures
            match fold {
                Ok(fold) => fold.wf() && fold_of(query@) == Ok::<FoldModel, RemoteUsageError>(fold@)
                    && fold.clients() == exact_clients_of(query@),
                Err(error) => fold_of(query@) == Err::<FoldModel, RemoteUsageError>(error),
            },
    {
        let (start_date, end_date_exclusive) = match validate_query(query) {
            Ok(dates) => dates,
            Err(error) => return Err(error),
        };
        let timezone = match bundled_timezone(query) {
            Ok(timezone) => timezone,
            Err(error) => return Err(error),
        };
        let exact_clients = if query.clients.len() == 0 {
            None
        } else {
            Some(copy_clients(&query.clients))
        };
        Ok(
            RemoteUsageFold {
                exact_clients,
                timezone,
                start_date,
                end_date_exclusive,
                accumulator: RemoteUsageAccumulator::new(),
            },
        )
    }

    /// The clients that the query selects, for the host to tell whether a message's client is
    /// among them.
    pub fn exact_clients(&self) -> (clients: Option<&Vec<String>>)
        ensures
            match clients {
                Some(clients) => self.clients() == Some(
                    clients@.map_values(|client: String| client@),
                ),
                None => self.clients() is None,
            },
    {
        match &self.exact_clients {
            Some(clients) => Some(clients),
            None => None,
        }
    }

    /// Reads one message.
    pub fn push(&mut self, report: &ReportMessage) -> (read: Result<(), RemoteUsageError>)
        requires
            old(self).wf(),
        ensures
            final(self).wf(),
            final(self).clients() == old(self).clients(),
            (final(self)@, read) == step(old(self)@, report@),
    {
        self.accumulator.add(report, &self.timezone, self.start_date, self.end_date_exclusive)
    }

    /// Makes the report.
    pub fn finish(self) -> (bundle: Result<RemoteUsageBundleV1, RemoteUsageError>)
        requires
            self.wf(),
        ensures
            match bundle {
                Ok(bundle) => finished(self@.kept) == Ok::<BundleModel, RemoteUsageError>(bundle@)
                    && bundle.tzdb_revision@ == REMOTE_TZDB_REVISION@ && bundle.graph@.len()
                    <= MAX_RECORDS && bundle.models@.len() <= MAX_RECORDS && bundle.hourly@.len()
                    <= MAX_RECORDS && bundle.agents@.len() <= MAX_RECORDS,
                Err(error) => finished(self@.kept) == Err::<BundleModel, RemoteUsageError>(error),
            },
    {
        self.accumulator.finish()
    }
}

fn copy_clients(clients: &Vec<String>) -> (copy: Vec<String>)
    ensures
        copy@.map_values(|client: String| client@) == clients@.map_values(|client: String| client@),
{
    let mut copy: Vec<String> = Vec::new();
    let mut i: usize = 0;
    while i < clients.len()
        invariant
            i <= clients@.len(),
            copy@.len() == i,
            forall|j: int| 0 <= j < i ==> (#[trigger] copy@[j])@ == clients@[j]@,
        decreases clients@.len() - i,
    {
        copy.push(clients[i].clone());
        i = i + 1;
    }
    assert(copy@.map_values(|client: String| client@) =~= clients@.map_values(
        |client: String| client@,
    ));
    copy
}

/// Makes the report of messages.
pub fn aggregate_remote_usage_v1(
    messages: &[ReportMessage],
    query: &RemoteUsageQueryV1,
) -> (bundle: Result<RemoteUsageBundleV1, RemoteUsageError>)
    ensures
        match bundle {
            Ok(bundle) => report_of(
                messages@.map_values(|message: ReportMessage| message@),
                query@,
            ) == Ok::<BundleModel, RemoteUsageError>(bundle@) && bundle.tzdb_revision@
                == REMOTE_TZDB_REVISION@,
            Err(error) => report_of(
                messages@.map_values(|message: ReportMessage| message@),
                query@,
            ) == Err::<BundleModel, RemoteUsageError>(error),
        },
{
    let ghost reports = messages@.map_values(|message: ReportMessage| message@);
    let mut fold = match RemoteUsageFold::new(query) {
        Ok(fold) => fold,
        Err(error) => return Err(error),
    };
    if messages.len() > MAX_MESSAGES {
        return Err(RemoteUsageError::LimitExceeded);
    }
    let ghost start = fold@;
    let mut i: usize = 0;
    while i < messages.len()
        invariant
            i <= messages@.len(),
            messages@.len() <= MAX_MESSAGES,
            reports == messages@.map_values(|message: ReportMessage| message@),
            fold.wf(),
            fold_of(query@) == Ok::<FoldModel, RemoteUsageError>(start),
            steps(start, reports.take(i as int)) == (fold@, Ok::<(), RemoteUsageError>(())),
        decreases messages@.len() - i,
    {
        proof {
            assert(reports.take(i + 1).drop_last() =~= reports.take(i as int));
            assert(reports.take(i + 1).last() == messages@[i as int]@);
        }
        if let Err(error) = fold.push(&messages[i]) {
            proof {
                lemma_steps_stop(start, reports, i as int + 1);
            }
            return Err(error);
        }
        i = i + 1;
    }
    assert(reports.take(i as int) =~= reports);
    fold.finish()
}

proof fn lemma_steps_stop(fold: FoldModel, reports: Seq<ReportModel>, at: int)
    requires
        0 <= at <= reports.len(),
        steps(fold, reports.take(at)).1 is Err,
    ensures
        steps(fold, reports) == steps(fold, reports.take(at)),
    decreases reports.len() - at,
{
    if at < reports.len() {
        assert(reports.take(at + 1).drop_last() =~= reports.take(at));
        lemma_steps_stop(fold, reports, at + 1);
    } else {
        assert(reports.take(at) =~= reports);
    }
}

} // verus!
