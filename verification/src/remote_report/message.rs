//! What a report makes of a message: its time, its names and what it counts.
use jiff::tz::TimeZone;
use vstd::prelude::*;
use vstd::utf8::*;

use crate::calendar::{date_text, whole_milliseconds, zone_data, CivilDate, MAX_MILLISECOND};
use crate::local_hours::{
    bucket_start, earliest_start, falls_into, hour_candidates, local_hour, read_local_hour,
    timestamp_from_millisecond, LocalHour,
};
use crate::messages::{text_of, MessageModel, UnifiedMessage};
use crate::ordered::same_text;
use crate::remote_report::error::RemoteUsageError;
use crate::remote_report::pages::{capped, token_total, Amounts};
use crate::remote_report::query::{is_plain_text, is_valid_text, validate_text};
use crate::text::{lemma_trimmed_ascii, trim, trimmed};

verus! {

/// A message, with what the host knows of its names and its cost.
#[derive(Clone, Debug, PartialEq, Eq)]
pub struct ReportMessage {
    pub message: UnifiedMessage,
    /// Whether the message's client is among those that the query asks for.
    pub selected: bool,
    /// The canonical name of the model, without surrounding white space.
    pub canonical_model: String,
    /// The display name of the agent.
    pub agent_name: String,
    /// The display name of the agent of a Copilot client.
    pub copilot_agent_name: String,
    /// The cost in billionths of a dollar, rounded to even, where it is finite, not negative and
    /// within 64 bits.
    pub cost_nano_usd: Option<u64>,
}

/// A message with texts as characters.
pub ghost struct ReportModel {
    pub message: MessageModel,
    pub selected: bool,
    pub canonical_model: Seq<char>,
    pub agent_name: Seq<char>,
    pub copilot_agent_name: Seq<char>,
    pub cost_nano_usd: Option<u64>,
}

impl View for ReportMessage {
    type V = ReportModel;

    open spec fn view(&self) -> ReportModel {
        ReportModel {
            message: self.message@,
            selected: self.selected,
            canonical_model: self.canonical_model@,
            agent_name: self.agent_name@,
            copilot_agent_name: self.copilot_agent_name@,
            cost_nano_usd: self.cost_nano_usd,
        }
    }
}

/// What a message counts.
#[derive(Clone, Copy, Debug, PartialEq, Eq, Structural)]
pub struct Numerators {
    pub input_tokens: u64,
    pub output_tokens: u64,
    pub cache_read_tokens: u64,
    pub cache_write_tokens: u64,
    pub reasoning_tokens: u64,
    pub message_count: u64,
    pub turn_count: u64,
    pub cost_nano_usd: u64,
    pub duration_millis: Option<u64>,
}

impl Numerators {
    /// What a message adds to a record of a page that knows no durations.
    pub open spec fn amounts(self) -> Amounts {
        Amounts {
            input_tokens: self.input_tokens,
            output_tokens: self.output_tokens,
            cache_read_tokens: self.cache_read_tokens,
            cache_write_tokens: self.cache_write_tokens,
            reasoning_tokens: self.reasoning_tokens,
            message_count: self.message_count,
            turn_count: self.turn_count,
            cost_nano_usd: self.cost_nano_usd,
            duration_millis: 0,
            timed_tokens: 0,
            sample_count: 0,
        }
    }

    /// What a message adds to a record of its model: its duration counts as a sample where it is
    /// not zero and the message has tokens.
    pub open spec fn timed_amounts(self) -> Amounts {
        match self.duration_millis {
            Some(duration) if duration > 0 && self.amounts().token_sum() > 0 => Amounts {
                duration_millis: duration,
                timed_tokens: capped(self.amounts().token_sum()),
                sample_count: 1,
                ..self.amounts()
            },
            _ => self.amounts(),
        }
    }

    /// Reads the amounts, and the amounts with the duration, and notes whether the token sum was
    /// capped.
    pub fn read_amounts(&self, saturated: &mut bool) -> (amounts: (Amounts, Amounts))
        ensures
            amounts.0 == self.amounts(),
            amounts.1 == self.timed_amounts(),
            *final(saturated) == (*old(saturated) || self.amounts().token_sum() > u64::MAX),
    {
        let amounts = Amounts {
            input_tokens: self.input_tokens,
            output_tokens: self.output_tokens,
            cache_read_tokens: self.cache_read_tokens,
            cache_write_tokens: self.cache_write_tokens,
            reasoning_tokens: self.reasoning_tokens,
            message_count: self.message_count,
            turn_count: self.turn_count,
            cost_nano_usd: self.cost_nano_usd,
            duration_millis: 0,
            timed_tokens: 0,
            sample_count: 0,
        };
        let total: u64 = token_total(&amounts, saturated);
        let mut timed = amounts;
        if let Some(duration) = self.duration_millis {
            if duration > 0 && total > 0 {
                timed.duration_millis = duration;
                timed.timed_tokens = total;
                timed.sample_count = 1;
            }
        }
        (amounts, timed)
    }
}

/// What a message counts, unless one of its numbers is negative or it has no valid cost.
pub open spec fn numerators_of(report: ReportModel) -> Result<Numerators, RemoteUsageError> {
    let tokens = report.message.tokens;
    let negative_duration = match report.message.duration_ms {
        Some(duration) => duration < 0,
        None => false,
    };
    if !tokens.non_negative() || report.message.message_count < 0 || negative_duration
        || report.cost_nano_usd is None {
        Err(RemoteUsageError::InvalidNumerator)
    } else {
        Ok(
            Numerators {
                input_tokens: tokens.input as u64,
                output_tokens: tokens.output as u64,
                cache_read_tokens: tokens.cache_read as u64,
                cache_write_tokens: tokens.cache_write as u64,
                reasoning_tokens: tokens.reasoning as u64,
                message_count: report.message.message_count as u64,
                turn_count: if report.message.is_turn_start {
                    1
                } else {
                    0
                },
                cost_nano_usd: report.cost_nano_usd->0,
                duration_millis: match report.message.duration_ms {
                    Some(duration) => Some(duration as u64),
                    None => None,
                },
            },
        )
    }
}

/// Reads what a message counts.
pub fn validate_numerators(report: &ReportMessage) -> (numerators: Result<
    Numerators,
    RemoteUsageError,
>)
    ensures
        numerators == numerators_of(report@),
{
    let tokens = report.message.tokens;
    if tokens.input < 0 || tokens.output < 0 || tokens.cache_read < 0 || tokens.cache_write < 0
        || tokens.reasoning < 0 || report.message.message_count < 0 {
        return Err(RemoteUsageError::InvalidNumerator);
    }
    let duration_millis: Option<u64> = match report.message.duration_ms {
        Some(duration) => if duration < 0 {
            return Err(RemoteUsageError::InvalidNumerator);
        } else {
            Some(duration as u64)
        },
        None => None,
    };
    let cost_nano_usd: u64 = match report.cost_nano_usd {
        Some(cost) => cost,
        None => return Err(RemoteUsageError::InvalidNumerator),
    };
    Ok(
        Numerators {
            input_tokens: tokens.input as u64,
            output_tokens: tokens.output as u64,
            cache_read_tokens: tokens.cache_read as u64,
            cache_write_tokens: tokens.cache_write as u64,
            reasoning_tokens: tokens.reasoning as u64,
            message_count: report.message.message_count as u64,
            turn_count: if report.message.is_turn_start {
                1
            } else {
                0
            },
            cost_nano_usd,
            duration_millis,
        },
    )
}

/// The model of a message: none where its name is blank, else its canonical name.
pub open spec fn model_name(value: Seq<char>, canonical: Seq<char>) -> Result<
    Option<Seq<char>>,
    RemoteUsageError,
> {
    if !is_valid_text(value, true) {
        Err(RemoteUsageError::InvalidText)
    } else if trimmed(value).len() == 0 {
        Ok(None)
    } else if !is_valid_text(trimmed(value), false) || !is_valid_text(canonical, false) {
        Err(RemoteUsageError::InvalidText)
    } else {
        Ok(Some(canonical))
    }
}

/// A result whose text is taken as characters.
pub open spec fn name_of(name: Result<Option<String>, RemoteUsageError>) -> Result<
    Option<Seq<char>>,
    RemoteUsageError,
> {
    match name {
        Ok(name) => Ok(text_of(name)),
        Err(error) => Err(error),
    }
}

/// Names the model of a message.
pub fn normalize_model(value: &str, canonical: &str) -> (name: Result<
    Option<String>,
    RemoteUsageError,
>)
    ensures
        name_of(name) == model_name(value@, canonical@),
        is_plain_text(value@, true) && (is_plain_text(canonical@, false) || trimmed(value@).len()
            == 0) ==> name is Ok,
{
    proof {
        if is_ascii_chars(value@) {
            lemma_trimmed_ascii(value@);
        }
    }
    if let Err(error) = validate_text(value, true) {
        return Err(error);
    }
    let inner = trim(value);
    if inner.is_empty() {
        return Ok(None);
    }
    if let Err(error) = validate_text(inner, false) {
        return Err(error);
    }
    if let Err(error) = validate_text(canonical, false) {
        return Err(error);
    }
    Ok(Some(canonical.to_owned()))
}

/// The provider of a message: none where its name is blank, else its name without surrounding
/// white space.
pub open spec fn provider_name(value: Seq<char>) -> Result<Option<Seq<char>>, RemoteUsageError> {
    model_name(value, trimmed(value))
}

/// Names the provider of a message.
pub fn normalize_provider(value: &str) -> (name: Result<Option<String>, RemoteUsageError>)
    ensures
        name_of(name) == provider_name(value@),
        is_plain_text(value@, true) ==> name is Ok,
{
    proof {
        if is_ascii_chars(value@) {
            lemma_trimmed_ascii(value@);
        }
    }
    normalize_model(value, trim(value))
}

/// The agent of a message: its display name, which depends on the client, or the main agent
/// where it has none.
pub open spec fn agent_name(
    client: Seq<char>,
    value: Option<Seq<char>>,
    name: Seq<char>,
    copilot_name: Seq<char>,
) -> Result<Seq<char>, RemoteUsageError> {
    match value {
        None => Ok("Main"@),
        Some(value) => {
            let display = if client == "copilot"@ {
                copilot_name
            } else {
                name
            };
            let display = if display.len() == 0 {
                "Main"@
            } else {
                display
            };
            if !is_valid_text(value, true) || !is_valid_text(display, false) {
                Err(RemoteUsageError::InvalidText)
            } else {
                Ok(display)
            }
        },
    }
}

/// Names the agent of a message.
pub fn normalize_agent(
    client: &str,
    value: &Option<String>,
    name: &str,
    copilot_name: &str,
) -> (agent: Result<String, RemoteUsageError>)
    ensures
        match agent {
            Ok(agent) => agent_name(client@, text_of(*value), name@, copilot_name@) == Ok::<
                Seq<char>,
                RemoteUsageError,
            >(agent@),
            Err(error) => agent_name(client@, text_of(*value), name@, copilot_name@) == Err::<
                Seq<char>,
                RemoteUsageError,
            >(error),
        },
        (value matches Some(value) ==> is_plain_text(value@, true)) && is_plain_text(name@, true)
            && is_plain_text(copilot_name@, true) ==> agent is Ok,
{
    proof {
        reveal_strlit("Main");
    }
    let value = match value {
        Some(value) => value,
        None => return Ok("Main".to_owned()),
    };
    if let Err(error) = validate_text(value.as_str(), true) {
        return Err(error);
    }
    let display = if same_text(client, "copilot") {
        copilot_name
    } else {
        name
    };
    let display = if display.is_empty() {
        "Main".to_owned()
    } else {
        display.to_owned()
    };
    match validate_text(display.as_str(), false) {
        Ok(()) => Ok(display),
        Err(error) => Err(error),
    }
}

/// A message that a report counts.
pub ghost struct Kept {
    pub date: Seq<char>,
    pub client: Seq<char>,
    pub model: Option<Seq<char>>,
    pub provider: Option<Seq<char>>,
    pub agent: Seq<char>,
    pub bucket_start_unix_ms: i64,
    pub utc_offset_seconds: i32,
    pub numerators: Numerators,
}

/// When a message was, by the clock of a time zone.
#[derive(Clone, Copy, Debug, PartialEq, Eq, Structural)]
pub struct MessageTime {
    pub local: LocalHour,
    pub bucket_start_unix_ms: i64,
}

/// When a message was. There is no time at or before the epoch, behind the last instant, and
/// where the start of its local hour is unknown.
pub open spec fn message_time(data: Seq<u8>, timestamp: i64) -> Result<
    MessageTime,
    RemoteUsageError,
> {
    let instant = timestamp * 1_000_000;
    let local = local_hour(data, instant);
    if !(1 <= timestamp <= MAX_MILLISECOND) {
        Err(RemoteUsageError::InvalidTimestamp)
    } else {
        match earliest_start(hour_candidates(data, instant, local), instant as i128, local) {
            None => Err(RemoteUsageError::InvalidTimestamp),
            Some(best) => Ok(
                MessageTime {
                    local,
                    bucket_start_unix_ms: whole_milliseconds(best as int) as i64,
                },
            ),
        }
    }
}

/// Reads the clock of a time zone at a message's timestamp. The hour of a message starts less
/// than an hour before it.
pub(crate) fn read_message_time(zone: &TimeZone, timestamp: i64) -> (time: Result<
    MessageTime,
    RemoteUsageError,
>)
    ensures
        time == message_time(zone_data(*zone), timestamp),
        time matches Ok(time) ==> {
            &&& falls_into(timestamp * 1_000_000, time.local)
            &&& time.bucket_start_unix_ms <= timestamp < time.bucket_start_unix_ms + 3_600_000
        },
{
    if timestamp < 1 || timestamp > MAX_MILLISECOND {
        return Err(RemoteUsageError::InvalidTimestamp);
    }
    let instant = match timestamp_from_millisecond(timestamp) {
        Ok(instant) => instant,
        Err(_) => return Err(RemoteUsageError::InvalidTimestamp),
    };
    let local = read_local_hour(zone, instant);
    match bucket_start(zone, instant, local) {
        Some(bucket_start_unix_ms) => Ok(MessageTime { local, bucket_start_unix_ms }),
        None => Err(RemoteUsageError::InvalidTimestamp),
    }
}

/// What a report makes of a message whose time is known: an error, nothing where the message is
/// not selected or outside of the dates, or what it counts.
pub open spec fn prepared(
    report: ReportModel,
    time: MessageTime,
    start: CivilDate,
    end: CivilDate,
) -> Result<Option<Kept>, RemoteUsageError> {
    let message = report.message;
    if !is_valid_text(message.client, false) {
        Err(RemoteUsageError::InvalidText)
    } else {
        match numerators_of(report) {
            Err(error) => Err(error),
            Ok(numerators) => if !report.selected || time.local.date.before(start)
                || !time.local.date.before(end) {
                Ok(None)
            } else {
                match (
                    model_name(message.model_id, report.canonical_model),
                    provider_name(message.provider_id),
                    agent_name(
                        message.client,
                        message.agent,
                        report.agent_name,
                        report.copilot_agent_name,
                    ),
                ) {
                    (Ok(model), Ok(provider), Ok(agent)) => Ok(
                        Some(
                            Kept {
                                date: time.local.date.text(),
                                client: message.client,
                                model,
                                provider,
                                agent,
                                bucket_start_unix_ms: time.bucket_start_unix_ms,
                                utc_offset_seconds: time.local.offset,
                                numerators,
                            },
                        ),
                    ),
                    _ => Err(RemoteUsageError::InvalidText),
                }
            },
        }
    }
}

/// A message that a report counts.
pub struct PreparedMessage {
    pub date_text: String,
    pub client: String,
    pub model: Option<String>,
    pub provider: Option<String>,
    pub agent: String,
    pub bucket_start_unix_ms: i64,
    pub utc_offset_seconds: i32,
    pub numerators: Numerators,
}

impl View for PreparedMessage {
    type V = Kept;

    open spec fn view(&self) -> Kept {
        Kept {
            date: self.date_text@,
            client: self.client@,
            model: text_of(self.model),
            provider: text_of(self.provider),
            agent: self.agent@,
            bucket_start_unix_ms: self.bucket_start_unix_ms,
            utc_offset_seconds: self.utc_offset_seconds,
            numerators: self.numerators,
        }
    }
}

/// Whether the texts that a report reads are short and ASCII.
pub open spec fn has_plain_texts(report: ReportModel) -> bool {
    &&& is_plain_text(report.message.client, false)
    &&& is_plain_text(report.message.model_id, true)
    &&& is_plain_text(report.canonical_model, false)
    &&& is_plain_text(report.message.provider_id, true)
    &&& report.message.agent matches Some(agent) ==> is_plain_text(agent, true)
    &&& is_plain_text(report.agent_name, true)
    &&& is_plain_text(report.copilot_agent_name, true)
}

/// Checks a message whose time is known, and prepares what it counts.
pub fn prepare_message(
    report: &ReportMessage,
    time: MessageTime,
    start: CivilDate,
    end: CivilDate,
) -> (outcome: Result<Option<PreparedMessage>, RemoteUsageError>)
    requires
        time.local.date.valid(),
    ensures
        match outcome {
            Ok(Some(message)) => prepared(report@, time, start, end) == Ok::<
                Option<Kept>,
                RemoteUsageError,
            >(Some(message@)),
            Ok(None) => prepared(report@, time, start, end) == Ok::<Option<Kept>, RemoteUsageError>(
                None,
            ),
            Err(error) => prepared(report@, time, start, end) == Err::<
                Option<Kept>,
                RemoteUsageError,
            >(error),
        },
        has_plain_texts(report@) && numerators_of(report@) is Ok ==> outcome is Ok,
{
    let message = &report.message;
    if let Err(error) = validate_text(message.client.as_str(), false) {
        return Err(error);
    }
    let numerators = match validate_numerators(report) {
        Ok(numerators) => numerators,
        Err(error) => return Err(error),
    };
    let date = time.local.date;
    if !report.selected || date.is_before(&start) || !date.is_before(&end) {
        return Ok(None);
    }
    let model = match normalize_model(message.model_id.as_str(), report.canonical_model.as_str()) {
        Ok(model) => model,
        Err(error) => return Err(error),
    };
    let provider = match normalize_provider(message.provider_id.as_str()) {
        Ok(provider) => provider,
        Err(error) => return Err(error),
    };
    let agent = match normalize_agent(
        message.client.as_str(),
        &message.agent,
        report.agent_name.as_str(),
        report.copilot_agent_name.as_str(),
    ) {
        Ok(agent) => agent,
        Err(error) => return Err(error),
    };
    Ok(
        Some(
            PreparedMessage {
                date_text: date_text(date),
                client: message.client.clone(),
                model,
                provider,
                agent,
                bucket_start_unix_ms: time.bucket_start_unix_ms,
                utc_offset_seconds: time.local.offset,
                numerators,
            },
        ),
    )
}

} // verus!
