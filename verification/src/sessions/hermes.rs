//! Hermes Agent sessions: aggregated rows of the agent's state database.
use vstd::prelude::*;

use crate::cost::{valid, valid_cost};
use crate::messages::{
    models_of, text_of, CostSource, MessageModel, TokenBreakdown, UnifiedMessage,
};
use crate::text::{
    is_blank, is_white_space, lemma_blank, lemma_trimmed_parts, trim, trimmed,
};

verus! {

/// The agent that Hermes messages belong to.
pub const HERMES_AGENT_NAME: &'static str = "Hermes Agent";

/// One row of the `sessions` table, with what the host knows of its provider.
pub struct HermesRow {
    pub session_id: String,
    pub model_id: String,
    pub billing_provider: Option<String>,
    /// When the session started, in milliseconds since the epoch.
    pub started_at_ms: i64,
    pub message_count: Option<i32>,
    pub input_tokens: Option<i64>,
    pub output_tokens: Option<i64>,
    pub cache_read_tokens: Option<i64>,
    pub cache_write_tokens: Option<i64>,
    pub reasoning_tokens: Option<i64>,
    /// Costs in dollars, as the bit patterns of doubles.
    pub estimated_cost: Option<u64>,
    pub actual_cost: Option<u64>,
    /// The canonical name of the provider that `billing_name` gives, if it has one.
    pub canonical_provider: Option<String>,
    /// The provider that is inferred from the model, if any.
    pub inferred_provider: Option<String>,
}

/// A billing provider without surrounding white space, unless it is blank.
pub open spec fn billing(provider: Option<Seq<char>>) -> Option<Seq<char>> {
    match provider {
        Some(provider) if trimmed(provider).len() > 0 => Some(trimmed(provider)),
        _ => None,
    }
}

/// The billing provider's name, for the host to look up its canonical form.
pub fn billing_name(billing_provider: &Option<String>) -> (name: Option<String>)
    ensures
        text_of(name) == billing(text_of(*billing_provider)),
{
    match billing_provider {
        Some(provider) => if is_blank(provider.as_str()) {
            None
        } else {
            Some(trim(provider.as_str()).to_owned())
        },
        None => None,
    }
}

/// The provider of a session: the canonical form of its billing provider, else the one that the
/// model suggests, else Hermes itself.
pub open spec fn provider_of(
    billing_provider: Option<Seq<char>>,
    canonical: Option<Seq<char>>,
    inferred: Option<Seq<char>>,
) -> Seq<char> {
    if billing(billing_provider) is Some && canonical is Some {
        canonical->0
    } else if inferred is Some {
        inferred->0
    } else {
        "hermes"@
    }
}

/// Picks the provider of a session.
pub fn resolved_provider(
    billing_provider: &Option<String>,
    canonical: &Option<String>,
    inferred: &Option<String>,
) -> (provider: String)
    ensures
        provider@ == provider_of(
            text_of(*billing_provider),
            text_of(*canonical),
            text_of(*inferred),
        ),
{
    if billing_name(billing_provider).is_some() {
        if let Some(canonical) = canonical {
            return canonical.clone();
        }
    }
    match inferred {
        Some(inferred) => inferred.clone(),
        None => "hermes".to_owned(),
    }
}

/// A count that is neither missing nor negative.
pub open spec fn counted(count: Option<i64>) -> i64 {
    match count {
        Some(count) if count > 0 => count,
        _ => 0,
    }
}

fn count(value: Option<i64>) -> (kept: i64)
    ensures
        kept == counted(value),
{
    match value {
        Some(value) => if value > 0 {
            value
        } else {
            0
        },
        None => 0,
    }
}

/// The cost of a session and where it comes from: the provider's, else the estimate, as far as
/// they are valid.
pub open spec fn cost_of(actual: Option<u64>, estimated: Option<u64>) -> (u64, CostSource) {
    match valid(actual) {
        Some(bits) => (bits, CostSource::ProviderReported),
        None => match valid(estimated) {
            Some(bits) => (bits, CostSource::Estimated),
            None => (0, CostSource::Unknown),
        },
    }
}

fn resolved_cost(actual: Option<u64>, estimated: Option<u64>) -> (cost: (u64, CostSource))
    ensures
        cost == cost_of(actual, estimated),
{
    match valid_cost(actual) {
        Some(bits) => (bits, CostSource::ProviderReported),
        None => match valid_cost(estimated) {
            Some(bits) => (bits, CostSource::Estimated),
            None => (0, CostSource::Unknown),
        },
    }
}

/// The message of a row.
pub open spec fn row_message(row: HermesRow) -> MessageModel {
    let (bits, source) = cost_of(row.actual_cost, row.estimated_cost);
    MessageModel {
        cost_source: source,
        message_count: match row.message_count {
            Some(count) if count > 0 => count,
            _ => 0,
        },
        agent: Some(HERMES_AGENT_NAME@),
        dedup_key: Some(row.session_id@),
        ..MessageModel::fresh(
            "hermes"@,
            row.model_id@,
            provider_of(
                text_of(row.billing_provider),
                text_of(row.canonical_provider),
                text_of(row.inferred_provider),
            ),
            row.session_id@,
            row.started_at_ms,
            TokenBreakdown {
                input: counted(row.input_tokens),
                output: counted(row.output_tokens),
                cache_read: counted(row.cache_read_tokens),
                cache_write: counted(row.cache_write_tokens),
                reasoning: counted(row.reasoning_tokens),
                cache_write_1h: 0,
            },
            seq![bits],
        )
    }
}

fn hermes_message(row: &HermesRow) -> (message: UnifiedMessage)
    ensures
        message@ == row_message(*row),
{
    let provider = resolved_provider(
        &row.billing_provider,
        &row.canonical_provider,
        &row.inferred_provider,
    );
    let (bits, source) = resolved_cost(row.actual_cost, row.estimated_cost);
    let mut cost_terms: Vec<u64> = Vec::new();
    cost_terms.push(bits);
    assert(cost_terms@ =~= seq![bits]);
    let mut message = UnifiedMessage::new(
        "hermes".to_owned(),
        row.model_id.clone(),
        provider,
        row.session_id.clone(),
        row.started_at_ms,
        TokenBreakdown {
            input: count(row.input_tokens),
            output: count(row.output_tokens),
            cache_read: count(row.cache_read_tokens),
            cache_write: count(row.cache_write_tokens),
            reasoning: count(row.reasoning_tokens),
            cache_write_1h: 0,
        },
        cost_terms,
    );
    message.agent = Some(HERMES_AGENT_NAME.to_owned());
    message.cost_source = source;
    message.message_count = match row.message_count {
        Some(count) => if count > 0 {
            count
        } else {
            0
        },
        None => 0,
    };
    message.dedup_key = Some(row.session_id.clone());
    message
}

/// Turns session rows into messages, one for each and in their order.
pub fn parse_hermes_sqlite(rows: &Vec<HermesRow>) -> (messages: Vec<UnifiedMessage>)
    ensures
        models_of(messages@) == rows@.map_values(|row: HermesRow| row_message(row)),
        messages@.len() == rows@.len(),
        forall|i: int|
            0 <= i < rows@.len() ==> {
                let tokens = (#[trigger] messages@[i]).tokens;
                &&& is_count_of(tokens.input as int, column(rows@[i].input_tokens))
                &&& is_count_of(tokens.output as int, column(rows@[i].output_tokens))
                &&& is_count_of(tokens.cache_read as int, column(rows@[i].cache_read_tokens))
                &&& is_count_of(tokens.cache_write as int, column(rows@[i].cache_write_tokens))
                &&& is_count_of(tokens.reasoning as int, column(rows@[i].reasoning_tokens))
            },
{
    let mut messages: Vec<UnifiedMessage> = Vec::new();
    let mut i: usize = 0;
    while i < rows.len()
        invariant
            i <= rows@.len(),
            messages@.len() == i,
            forall|j: int| 0 <= j < i ==> (#[trigger] messages@[j])@ == row_message(rows@[j]),
        decreases rows@.len() - i,
    {
        messages.push(hermes_message(&rows[i]));
        i = i + 1;
    }
    assert(models_of(messages@) =~= rows@.map_values(|row: HermesRow| row_message(row)));
    proof {
        assert forall|i: int| 0 <= i < rows@.len() implies {
            let tokens = (#[trigger] messages@[i]).tokens;
            &&& is_count_of(tokens.input as int, column(rows@[i].input_tokens))
            &&& is_count_of(tokens.output as int, column(rows@[i].output_tokens))
            &&& is_count_of(tokens.cache_read as int, column(rows@[i].cache_read_tokens))
            &&& is_count_of(tokens.cache_write as int, column(rows@[i].cache_write_tokens))
            &&& is_count_of(tokens.reasoning as int, column(rows@[i].reasoning_tokens))
        } by {
            lemma_columns_are_counted_by_name(rows@[i], messages@[i]);
        }
    }
    messages
}

// ---------------------------------------------------------------------------
// Laws
// ---------------------------------------------------------------------------
/// Whether a count is that of a column: the column's number where it has one that is not
/// negative, else zero.
pub open spec fn is_count_of(count: int, column: Option<int>) -> bool {
    match column {
        Some(number) => (number >= 0 ==> count == number) && (number < 0 ==> count == 0),
        None => count == 0,
    }
}

/// A column as an integer.
pub open spec fn column(value: Option<i64>) -> Option<int> {
    match value {
        Some(number) => Some(number as int),
        None => None,
    }
}

/// Each kind of tokens is counted by the column of its own name, and so are the messages.
/// Nothing else is counted.
pub proof fn lemma_columns_are_counted_by_name(row: HermesRow, message: UnifiedMessage)
    requires
        message@ == row_message(row),
    ensures
        is_count_of(message.tokens.input as int, column(row.input_tokens)),
        is_count_of(message.tokens.output as int, column(row.output_tokens)),
        is_count_of(message.tokens.cache_read as int, column(row.cache_read_tokens)),
        is_count_of(message.tokens.cache_write as int, column(row.cache_write_tokens)),
        is_count_of(message.tokens.reasoning as int, column(row.reasoning_tokens)),
        is_count_of(
            message.message_count as int,
            match row.message_count {
                Some(count) => Some(count as int),
                None => None,
            },
        ),
        message.tokens.cache_write_1h == 0,
{
}

/// A column decides on the count of its own name alone: two rows that agree in a column agree in
/// that count, whatever else they hold.
pub proof fn lemma_a_column_decides_alone(
    first: HermesRow,
    second: HermesRow,
    a: UnifiedMessage,
    b: UnifiedMessage,
)
    requires
        a@ == row_message(first),
        b@ == row_message(second),
    ensures
        first.input_tokens == second.input_tokens ==> a.tokens.input == b.tokens.input,
        first.output_tokens == second.output_tokens ==> a.tokens.output == b.tokens.output,
        first.cache_read_tokens == second.cache_read_tokens ==> a.tokens.cache_read
            == b.tokens.cache_read,
        first.cache_write_tokens == second.cache_write_tokens ==> a.tokens.cache_write
            == b.tokens.cache_write,
        first.reasoning_tokens == second.reasoning_tokens ==> a.tokens.reasoning
            == b.tokens.reasoning,
        first.message_count == second.message_count ==> a.message_count == b.message_count,
{
}

/// The provider's own cost wins over the estimate, and a cost that does not count is none: the
/// message has exactly one cost, from where its source says.
pub proof fn lemma_reported_costs_win(row: HermesRow, message: UnifiedMessage)
    requires
        message@ == row_message(row),
    ensures
        message.cost_terms@.len() == 1,
        valid(row.actual_cost) is Some ==> message.cost_source == CostSource::ProviderReported
            && Some(message.cost_terms@[0]) == row.actual_cost,
        valid(row.actual_cost) is None && valid(row.estimated_cost) is Some ==> message.cost_source
            == CostSource::Estimated && Some(message.cost_terms@[0]) == row.estimated_cost,
        valid(row.actual_cost) is None && valid(row.estimated_cost) is None ==> message.cost_source
            == CostSource::Unknown && message.cost_terms@[0] == 0,
{
    assert(message@.cost_terms.len() == 1);
}

/// The provider is the canonical one where a billing provider is named, else the one that the
/// model suggests, else Hermes. A billing provider of white space names none.
pub proof fn lemma_provider_of_a_row(row: HermesRow, message: UnifiedMessage)
    requires
        message@ == row_message(row),
    ensures
        ({
            let named = row.billing_provider matches Some(provider) && exists|i: int|
                0 <= i < provider@.len() && !is_white_space(#[trigger] provider@[i]);
            &&& named && row.canonical_provider is Some ==> message.provider_id@
                == row.canonical_provider->0@
            &&& !named || row.canonical_provider is None ==> {
                &&& row.inferred_provider is Some ==> message.provider_id@
                    == row.inferred_provider->0@
                &&& row.inferred_provider is None ==> message.provider_id@ == "hermes"@
            }
        }),
{
    if let Some(provider) = row.billing_provider {
        lemma_blank(provider@);
    }
}

/// The name that the host looks up is the billing provider without the white space around it,
/// and there is none where nothing else is left.
pub proof fn lemma_billing_name(provider: String, name: Option<String>) -> (around: (
    Seq<char>,
    Seq<char>,
))
    requires
        text_of(name) == billing(Some(provider@)),
    ensures
        match name {
            Some(name) => {
                &&& provider@ == around.0 + name@ + around.1
                &&& name@.len() > 0
                &&& !is_white_space(name@[0])
                &&& !is_white_space(name@[name@.len() - 1])
            },
            None => provider@ == around.0 + around.1,
        },
        forall|i: int| 0 <= i < around.0.len() ==> is_white_space(#[trigger] around.0[i]),
        forall|i: int| 0 <= i < around.1.len() ==> is_white_space(#[trigger] around.1[i]),
{
    let around = lemma_trimmed_parts(provider@);
    if trimmed(provider@).len() == 0 {
        assert(provider@ =~= around.0 + around.1);
    }
    around
}

/// There is one message for each row, in the order of the rows. It names the row's session, its
/// model, its start and the agent, and the session keeps it from being counted twice.
pub proof fn lemma_every_row_has_its_message(
    rows: Seq<HermesRow>,
    messages: Seq<UnifiedMessage>,
    at: int,
)
    requires
        models_of(messages) == rows.map_values(|row: HermesRow| row_message(row)),
        0 <= at < rows.len(),
    ensures
        messages.len() == rows.len(),
        messages[at]@ == row_message(rows[at]),
        messages[at].client@ == "hermes"@,
        messages[at].session_id@ == rows[at].session_id@,
        messages[at].model_id@ == rows[at].model_id@,
        messages[at].timestamp == rows[at].started_at_ms,
        messages[at].agent matches Some(agent) && agent@ == "Hermes Agent"@,
        messages[at].dedup_key matches Some(key) && key@ == rows[at].session_id@,
        messages[at].workspace_key is None,
        messages[at].workspace_label is None,
        messages[at].duration_ms is None,
        !messages[at].is_turn_start,
        messages[at].dedup_aliases@.len() == 0,
{
    assert(models_of(messages).len() == messages.len());
    assert(models_of(messages)[at] == messages[at]@);
    assert(messages[at]@.dedup_aliases.len() == 0);
}

} // verus!
