//! Usage messages: what every session reader produces and every report folds.
use vstd::prelude::*;

verus! {

/// Where a message's cost comes from.
#[derive(Debug, Clone, Copy, PartialEq, Eq, Structural)]
pub enum CostSource {
    /// Nobody stated a cost.
    Unknown,
    /// The client estimated it.
    Estimated,
    /// The provider reported it.
    ProviderReported,
}

/// Token counts by kind. The one-hour cache writes are a part of `cache_write`.
#[derive(Debug, Clone, Copy, PartialEq, Eq, Structural)]
pub struct TokenBreakdown {
    pub input: i64,
    pub output: i64,
    pub cache_read: i64,
    pub cache_write: i64,
    pub reasoning: i64,
    pub cache_write_1h: i64,
}

/// The nearest `i64` to an integer.
pub open spec fn clamp_i64(value: int) -> i64 {
    if value > i64::MAX {
        i64::MAX
    } else if value < i64::MIN {
        i64::MIN
    } else {
        value as i64
    }
}

/// A sum of two counts that stops at the bounds of `i64`.
pub fn saturating_sum(a: i64, b: i64) -> (sum: i64)
    ensures
        sum == clamp_i64(a + b),
{
    let exact: i128 = a as i128 + b as i128;
    if exact > i64::MAX as i128 {
        i64::MAX
    } else if exact < i64::MIN as i128 {
        i64::MIN
    } else {
        exact as i64
    }
}

impl Default for TokenBreakdown {
    fn default() -> (tokens: Self)
        ensures
            tokens == TokenBreakdown::zero(),
    {
        TokenBreakdown {
            input: 0,
            output: 0,
            cache_read: 0,
            cache_write: 0,
            reasoning: 0,
            cache_write_1h: 0,
        }
    }
}

impl TokenBreakdown {
    /// No tokens of any kind.
    pub open spec fn zero() -> TokenBreakdown {
        TokenBreakdown {
            input: 0,
            output: 0,
            cache_read: 0,
            cache_write: 0,
            reasoning: 0,
            cache_write_1h: 0,
        }
    }

    /// No kind has a negative count.
    pub open spec fn non_negative(self) -> bool {
        &&& self.input >= 0
        &&& self.output >= 0
        &&& self.cache_read >= 0
        &&& self.cache_write >= 0
        &&& self.reasoning >= 0
    }

    /// The exact sum of the five kinds.
    pub open spec fn exact_total(self) -> int {
        self.input + self.output + self.cache_read + self.cache_write + self.reasoning
    }

    /// The running sum of the five kinds, each partial sum clamped.
    pub open spec fn clamped_total(self) -> i64 {
        clamp_i64(
            clamp_i64(
                clamp_i64(clamp_i64(self.input + self.output) + self.cache_read) + self.cache_write,
            ) + self.reasoning,
        )
    }

    /// The tokens of all kinds. It saturates: a count that was clamped on the way in cannot
    /// overflow it.
    pub fn total(&self) -> (total: i64)
        ensures
            total == self.clamped_total(),
            self.non_negative() ==> total == clamp_i64(self.exact_total()),
    {
        let sum: i64 = saturating_sum(self.input, self.output);
        let sum: i64 = saturating_sum(sum, self.cache_read);
        let sum: i64 = saturating_sum(sum, self.cache_write);
        saturating_sum(sum, self.reasoning)
    }
}

/// An optional text as characters.
pub open spec fn text_of(text: Option<String>) -> Option<Seq<char>> {
    match text {
        Some(text) => Some(text@),
        None => None,
    }
}

/// A copy of an optional text.
pub fn copy_text(text: &Option<String>) -> (copy: Option<String>)
    ensures
        text_of(copy) == text_of(*text),
{
    match text {
        Some(text) => Some(text.clone()),
        None => None,
    }
}

/// One usage record of a session.
#[derive(Debug, Clone, PartialEq, Eq)]
pub struct UnifiedMessage {
    pub client: String,
    pub model_id: String,
    pub provider_id: String,
    pub session_id: String,
    pub workspace_key: Option<String>,
    pub workspace_label: Option<String>,
    /// Milliseconds since the Unix epoch.
    pub timestamp: i64,
    /// The calendar date that the host shows with the message, once the host has set it.
    pub date: String,
    pub tokens: TokenBreakdown,
    /// The cost in US dollars as IEEE 754 double bit patterns: their sum, from the first to the
    /// last, is the message's cost.
    pub cost_terms: Vec<u64>,
    pub cost_source: CostSource,
    pub message_count: i32,
    pub agent: Option<String>,
    pub dedup_key: Option<String>,
    pub dedup_aliases: Vec<String>,
    pub is_turn_start: bool,
    pub duration_ms: Option<i64>,
}

/// What a message says, with texts as characters.
pub ghost struct MessageModel {
    pub client: Seq<char>,
    pub model_id: Seq<char>,
    pub provider_id: Seq<char>,
    pub session_id: Seq<char>,
    pub workspace_key: Option<Seq<char>>,
    pub workspace_label: Option<Seq<char>>,
    pub timestamp: i64,
    pub date: Seq<char>,
    pub tokens: TokenBreakdown,
    pub cost_terms: Seq<u64>,
    pub cost_source: CostSource,
    pub message_count: i32,
    pub agent: Option<Seq<char>>,
    pub dedup_key: Option<Seq<char>>,
    pub dedup_aliases: Seq<Seq<char>>,
    pub is_turn_start: bool,
    pub duration_ms: Option<i64>,
}

impl View for UnifiedMessage {
    type V = MessageModel;

    open spec fn view(&self) -> MessageModel {
        MessageModel {
            client: self.client@,
            model_id: self.model_id@,
            provider_id: self.provider_id@,
            session_id: self.session_id@,
            workspace_key: text_of(self.workspace_key),
            workspace_label: text_of(self.workspace_label),
            timestamp: self.timestamp,
            date: self.date@,
            tokens: self.tokens,
            cost_terms: self.cost_terms@,
            cost_source: self.cost_source,
            message_count: self.message_count,
            agent: text_of(self.agent),
            dedup_key: text_of(self.dedup_key),
            dedup_aliases: self.dedup_aliases@.map_values(|alias: String| alias@),
            is_turn_start: self.is_turn_start,
            duration_ms: self.duration_ms,
        }
    }
}

impl MessageModel {
    /// A fresh message: one message, no workspace, date, agent, key or duration, and a cost of
    /// unknown origin.
    pub open spec fn fresh(
        client: Seq<char>,
        model_id: Seq<char>,
        provider_id: Seq<char>,
        session_id: Seq<char>,
        timestamp: i64,
        tokens: TokenBreakdown,
        cost_terms: Seq<u64>,
    ) -> MessageModel {
        MessageModel {
            client,
            model_id,
            provider_id,
            session_id,
            workspace_key: None,
            workspace_label: None,
            timestamp,
            date: Seq::empty(),
            tokens,
            cost_terms,
            cost_source: CostSource::Unknown,
            message_count: 1,
            agent: None,
            dedup_key: None,
            dedup_aliases: Seq::empty(),
            is_turn_start: false,
            duration_ms: None,
        }
    }
}

impl UnifiedMessage {
    pub fn new(
        client: String,
        model_id: String,
        provider_id: String,
        session_id: String,
        timestamp: i64,
        tokens: TokenBreakdown,
        cost_terms: Vec<u64>,
    ) -> (message: Self)
        ensures
            message@ == MessageModel::fresh(
                client@,
                model_id@,
                provider_id@,
                session_id@,
                timestamp,
                tokens,
                cost_terms@,
            ),
    {
        let message = UnifiedMessage {
            client,
            model_id,
            provider_id,
            session_id,
            workspace_key: None,
            workspace_label: None,
            timestamp,
            date: String::new(),
            tokens,
            cost_terms,
            cost_source: CostSource::Unknown,
            message_count: 1,
            agent: None,
            dedup_key: None,
            dedup_aliases: Vec::new(),
            is_turn_start: false,
            duration_ms: None,
        };
        assert(message@.date =~= Seq::empty());
        assert(message@.dedup_aliases =~= Seq::empty());
        message
    }

    /// Whether the provider stated the cost, so that no price list overrides it.
    pub fn has_authoritative_cost(&self) -> (authoritative: bool)
        ensures
            authoritative == (self@.cost_source == CostSource::ProviderReported),
    {
        match self.cost_source {
            CostSource::ProviderReported => true,
            _ => false,
        }
    }
}

/// The models of a list of messages.
pub open spec fn models_of(messages: Seq<UnifiedMessage>) -> Seq<MessageModel> {
    messages.map_values(|message: UnifiedMessage| message@)
}

/// What a message says is what its fields hold, each in its place.
pub proof fn lemma_a_message_says_its_fields(message: UnifiedMessage)
    ensures
        message@.client == message.client@,
        message@.model_id == message.model_id@,
        message@.provider_id == message.provider_id@,
        message@.session_id == message.session_id@,
        message@.timestamp == message.timestamp,
        message@.date == message.date@,
        message@.tokens == message.tokens,
        message@.cost_terms == message.cost_terms@,
        message@.cost_source == message.cost_source,
        message@.message_count == message.message_count,
        message@.is_turn_start == message.is_turn_start,
        message@.duration_ms == message.duration_ms,
        message.workspace_key is Some ==> message@.workspace_key == Some(message.workspace_key->0@),
        message.workspace_key is None ==> message@.workspace_key is None,
        message.workspace_label is Some ==> message@.workspace_label == Some(
            message.workspace_label->0@,
        ),
        message.workspace_label is None ==> message@.workspace_label is None,
        message.agent is Some ==> message@.agent == Some(message.agent->0@),
        message.agent is None ==> message@.agent is None,
        message.dedup_key is Some ==> message@.dedup_key == Some(message.dedup_key->0@),
        message.dedup_key is None ==> message@.dedup_key is None,
        message@.dedup_aliases.len() == message.dedup_aliases@.len(),
        forall|i: int|
            0 <= i < message.dedup_aliases@.len() ==> #[trigger] message@.dedup_aliases[i]
                == message.dedup_aliases@[i]@,
{
}

/// A list of messages says what its messages say, in their order.
pub proof fn lemma_a_list_says_its_messages(messages: Seq<UnifiedMessage>)
    ensures
        models_of(messages).len() == messages.len(),
        forall|i: int|
            0 <= i < messages.len() ==> #[trigger] models_of(messages)[i] == messages[i]@,
{
}

/// A new message is one message with what it was given, and says nothing else.
pub proof fn lemma_new_messages(
    client: Seq<char>,
    model_id: Seq<char>,
    provider_id: Seq<char>,
    session_id: Seq<char>,
    timestamp: i64,
    tokens: TokenBreakdown,
    cost_terms: Seq<u64>,
    message: UnifiedMessage,
)
    requires
        message@ == MessageModel::fresh(
            client,
            model_id,
            provider_id,
            session_id,
            timestamp,
            tokens,
            cost_terms,
        ),
    ensures
        message.client@ == client,
        message.model_id@ == model_id,
        message.provider_id@ == provider_id,
        message.session_id@ == session_id,
        message.timestamp == timestamp,
        message.tokens == tokens,
        message.cost_terms@ == cost_terms,
        message.message_count == 1,
        message.cost_source == CostSource::Unknown,
        message.date@.len() == 0,
        message.workspace_key is None,
        message.workspace_label is None,
        message.agent is None,
        message.dedup_key is None,
        message.dedup_aliases@.len() == 0,
        !message.is_turn_start,
        message.duration_ms is None,
{
    assert(message@.dedup_aliases.len() == message.dedup_aliases@.len());
}

/// Where the sum of the five counts, and every sum on the way to it, stays within 64 bits, the
/// total is that sum. Counts that are not negative and go beyond them total the largest number.
pub proof fn lemma_totals_count_every_kind(tokens: TokenBreakdown)
    ensures
        ({
            let two = tokens.input + tokens.output;
            let three = two + tokens.cache_read;
            let four = three + tokens.cache_write;
            let sum = four + tokens.reasoning;
            &&& i64::MIN <= two <= i64::MAX && i64::MIN <= three <= i64::MAX && i64::MIN <= four
                <= i64::MAX && i64::MIN <= sum <= i64::MAX ==> tokens.clamped_total() == sum
            &&& tokens.non_negative() && sum > i64::MAX ==> tokens.clamped_total() == i64::MAX
        }),
        tokens.non_negative() <==> tokens.input >= 0 && tokens.output >= 0 && tokens.cache_read >= 0
            && tokens.cache_write >= 0 && tokens.reasoning >= 0,
{
}

/// A saturating sum is exact where 64 bits hold it, and else the nearest number that they hold.
pub proof fn lemma_clamped_sums(value: int)
    ensures
        i64::MIN <= value <= i64::MAX ==> clamp_i64(value) == value,
        value > i64::MAX ==> clamp_i64(value) == i64::MAX,
        value < i64::MIN ==> clamp_i64(value) == i64::MIN,
{
}

} // verus!
