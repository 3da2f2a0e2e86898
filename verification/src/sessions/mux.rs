//! Mux sessions: the usage file of a workspace.
use vstd::multiset::Multiset;
use vstd::prelude::*;
use vstd::seq_lib::*;

use crate::cost::{is_positive_cost, is_valid_cost, valid, valid_cost};
use crate::messages::{
    lemma_totals_count_every_kind, models_of, CostSource, MessageModel, TokenBreakdown,
    UnifiedMessage,
};
use crate::text::{lemma_split_parts, split_first, split_once};

verus! {

/// What a usage file says.
pub struct MuxSessionUsage {
    pub version: Option<u32>,
    pub by_model: Option<Vec<MuxModelEntry>>,
    pub last_request: Option<MuxLastRequest>,
}

/// One model of a usage file, with what the host knows of its provider.
pub struct MuxModelEntry {
    pub model_key: String,
    pub usage: MuxModelUsage,
    /// The canonical name of the provider that `split_model_key` gives, if it has one.
    pub canonical_provider: Option<String>,
}

/// The usage of one model.
pub struct MuxModelUsage {
    pub input: Option<MuxTokenBucket>,
    pub cached: Option<MuxTokenBucket>,
    pub cache_create: Option<MuxTokenBucket>,
    pub output: Option<MuxTokenBucket>,
    pub reasoning: Option<MuxTokenBucket>,
}

/// The tokens of one kind and their cost, as the bit pattern of a double.
pub struct MuxTokenBucket {
    pub tokens: Option<i64>,
    pub cost_usd: Option<u64>,
}

/// The last request of a session.
pub struct MuxLastRequest {
    pub model: Option<String>,
    pub timestamp: Option<i64>,
}

/// The tokens of a bucket: none where they are missing or negative.
pub open spec fn bucket_tokens(bucket: Option<MuxTokenBucket>) -> i64 {
    match bucket {
        Some(MuxTokenBucket { tokens: Some(tokens), .. }) if tokens > 0 => tokens,
        _ => 0,
    }
}

/// The cost of a bucket, where it is valid.
pub open spec fn bucket_cost(bucket: Option<MuxTokenBucket>) -> Option<u64> {
    match bucket {
        Some(bucket) => valid(bucket.cost_usd),
        None => None,
    }
}

/// The tokens of a bucket, if its cost is known or not, as asked.
pub open spec fn bucket_share(bucket: Option<MuxTokenBucket>, known: bool) -> i64 {
    if (bucket_cost(bucket) is Some) == known {
        bucket_tokens(bucket)
    } else {
        0
    }
}

impl MuxModelUsage {
    /// The tokens in buckets whose cost is known or not, as asked.
    pub open spec fn share(self, known: bool) -> TokenBreakdown {
        TokenBreakdown {
            input: bucket_share(self.input, known),
            output: bucket_share(self.output, known),
            cache_read: bucket_share(self.cached, known),
            cache_write: bucket_share(self.cache_create, known),
            reasoning: bucket_share(self.reasoning, known),
            cache_write_1h: 0,
        }
    }

    /// The costs that are known, behind a zero, in the order of the buckets.
    pub open spec fn known_costs(self) -> Seq<u64> {
        let costs = seq![0u64];
        let costs = with_cost(costs, self.input);
        let costs = with_cost(costs, self.cached);
        let costs = with_cost(costs, self.cache_create);
        let costs = with_cost(costs, self.output);
        with_cost(costs, self.reasoning)
    }

    /// Whether a known cost is above zero.
    pub open spec fn has_positive_cost(self) -> bool {
        ||| positive_bucket(self.input)
        ||| positive_bucket(self.cached)
        ||| positive_bucket(self.cache_create)
        ||| positive_bucket(self.output)
        ||| positive_bucket(self.reasoning)
    }
}

/// A list of costs and that of one more bucket.
pub open spec fn with_cost(costs: Seq<u64>, bucket: Option<MuxTokenBucket>) -> Seq<u64> {
    match bucket_cost(bucket) {
        Some(bits) => costs.push(bits),
        None => costs,
    }
}

/// Whether a bucket's cost is known and above zero.
pub open spec fn positive_bucket(bucket: Option<MuxTokenBucket>) -> bool {
    match bucket_cost(bucket) {
        Some(bits) => is_positive_cost(bits),
        None => false,
    }
}

/// The provider and the model of a model key: what stands before and behind its first colon.
pub open spec fn key_parts(model_key: Seq<char>) -> (Seq<char>, Seq<char>) {
    match split_first(model_key, ':') {
        Some((provider, model)) => (provider, model),
        None => (Seq::empty(), model_key),
    }
}

/// Splits a model key such as `openai:gpt-4o` into provider and model.
pub fn split_model_key(model_key: &str) -> (parts: (String, String))
    ensures
        (parts.0@, parts.1@) == key_parts(model_key@),
{
    match split_once(model_key, ':') {
        Some((provider, model)) => (provider.to_owned(), model.to_owned()),
        None => (String::new(), model_key.to_owned()),
    }
}

/// The key that keeps a row from being counted twice. It holds the session and the model, so
/// that workspaces with the same model do not collide, and whether the cost is known, so that
/// the two rows of a split do not.
pub open spec fn dedup_key_of(session_id: Seq<char>, model_key: Seq<char>, known: bool) -> Seq<
    char,
> {
    "mux:"@ + session_id + ":"@ + model_key + (if known {
        ":known"@
    } else {
        ":unknown"@
    })
}

fn dedup_key(session_id: &str, model_key: &str, known: bool) -> (key: String)
    ensures
        key@ == dedup_key_of(session_id@, model_key@, known),
{
    let mut key = "mux:".to_owned();
    key.append(session_id);
    key.append(":");
    key.append(model_key);
    if known {
        key.append(":known");
    } else {
        key.append(":unknown");
    }
    key
}

/// What the rows of a session share.
pub ghost struct MuxSession {
    pub session_id: Seq<char>,
    pub timestamp: i64,
}

/// The row for the tokens of a model whose cost is known or not, as asked.
pub open spec fn share_message(
    entry: MuxModelEntry,
    session: MuxSession,
    known: bool,
    message_count: i32,
) -> MessageModel {
    let (prefix, model) = key_parts(entry.model_key@);
    MessageModel {
        cost_source: if known {
            CostSource::ProviderReported
        } else {
            CostSource::Unknown
        },
        message_count,
        dedup_key: Some(dedup_key_of(session.session_id, entry.model_key@, known)),
        ..MessageModel::fresh(
            "mux"@,
            model,
            match entry.canonical_provider {
                Some(provider) => provider@,
                None => prefix,
            },
            session.session_id,
            session.timestamp,
            entry.usage.share(known),
            if known {
                entry.usage.known_costs()
            } else {
                seq![0u64]
            },
        )
    }
}

/// The rows of a model: none without tokens, and one for either share that counts. Where there
/// are two, the first counts as the message.
pub open spec fn entry_messages(entry: MuxModelEntry, session: MuxSession) -> Seq<MessageModel> {
    let known_total = entry.usage.share(true).clamped_total();
    let unknown_total = entry.usage.share(false).clamped_total();
    let known = known_total > 0 || entry.usage.has_positive_cost();
    if known_total == 0 && unknown_total == 0 {
        Seq::empty()
    } else if known && unknown_total > 0 {
        seq![share_message(entry, session, true, 1), share_message(entry, session, false, 0)]
    } else if known {
        seq![share_message(entry, session, true, 1)]
    } else {
        seq![share_message(entry, session, false, 1)]
    }
}

fn tokens(bucket: &Option<MuxTokenBucket>) -> (count: i64)
    ensures
        count == bucket_tokens(*bucket),
{
    match bucket {
        Some(bucket) => match bucket.tokens {
            Some(tokens) => if tokens > 0 {
                tokens
            } else {
                0
            },
            None => 0,
        },
        None => 0,
    }
}

fn valid_mux_cost(bucket: &Option<MuxTokenBucket>) -> (cost: Option<u64>)
    ensures
        cost == bucket_cost(*bucket),
{
    match bucket {
        Some(bucket) => valid_cost(bucket.cost_usd),
        None => None,
    }
}

/// Adds a bucket's cost to the known ones and tells how its tokens are split: those with a known
/// cost, and those without.
fn split_bucket(
    bucket: &Option<MuxTokenBucket>,
    costs: &mut Vec<u64>,
    positive: &mut bool,
) -> (shares: (i64, i64))
    ensures
        shares.0 == bucket_share(*bucket, true),
        shares.1 == bucket_share(*bucket, false),
        final(costs)@ == with_cost(old(costs)@, *bucket),
        *final(positive) == (*old(positive) || positive_bucket(*bucket)),
{
    let count: i64 = tokens(bucket);
    match valid_mux_cost(bucket) {
        Some(bits) => {
            costs.push(bits);
            if 0 < bits && bits < 0x7ff0_0000_0000_0000 {
                *positive = true;
            }
            (count, 0)
        },
        None => (0, count),
    }
}

fn make_message(
    entry: &MuxModelEntry,
    session_id: &str,
    timestamp: i64,
    tokens: TokenBreakdown,
    cost_terms: Vec<u64>,
    known: bool,
    message_count: i32,
) -> (message: UnifiedMessage)
    requires
        tokens == entry.usage.share(known),
        known ==> cost_terms@ == entry.usage.known_costs(),
        !known ==> cost_terms@ == seq![0u64],
    ensures
        message@ == share_message(
            *entry,
            (MuxSession { session_id: session_id@, timestamp }),
            known,
            message_count,
        ),
{
    let (prefix, model_id) = split_model_key(entry.model_key.as_str());
    let provider = match &entry.canonical_provider {
        Some(provider) => provider.clone(),
        None => prefix,
    };
    let mut message = UnifiedMessage::new(
        "mux".to_owned(),
        model_id,
        provider,
        session_id.to_owned(),
        timestamp,
        tokens,
        cost_terms,
    );
    message.dedup_key = Some(dedup_key(session_id, entry.model_key.as_str(), known));
    message.message_count = message_count;
    if known {
        message.cost_source = CostSource::ProviderReported;
    }
    message
}

/// Adds the rows of a model.
fn push_entry(
    entry: &MuxModelEntry,
    session_id: &str,
    timestamp: i64,
    messages: &mut Vec<UnifiedMessage>,
)
    ensures
        models_of(final(messages)@) == models_of(old(messages)@) + entry_messages(
            *entry,
            (MuxSession { session_id: session_id@, timestamp }),
        ),
{
    let ghost before = models_of(messages@);
    let ghost session = MuxSession { session_id: session_id@, timestamp };
    let mut known_costs: Vec<u64> = Vec::new();
    known_costs.push(0);
    assert(known_costs@ =~= seq![0u64]);
    let mut positive = false;
    let input = split_bucket(&entry.usage.input, &mut known_costs, &mut positive);
    let cached = split_bucket(&entry.usage.cached, &mut known_costs, &mut positive);
    let cache_create = split_bucket(&entry.usage.cache_create, &mut known_costs, &mut positive);
    let output = split_bucket(&entry.usage.output, &mut known_costs, &mut positive);
    let reasoning = split_bucket(&entry.usage.reasoning, &mut known_costs, &mut positive);
    let known_tokens = TokenBreakdown {
        input: input.0,
        output: output.0,
        cache_read: cached.0,
        cache_write: cache_create.0,
        reasoning: reasoning.0,
        cache_write_1h: 0,
    };
    let unknown_tokens = TokenBreakdown {
        input: input.1,
        output: output.1,
        cache_read: cached.1,
        cache_write: cache_create.1,
        reasoning: reasoning.1,
        cache_write_1h: 0,
    };
    let known_total: i64 = known_tokens.total();
    let unknown_total: i64 = unknown_tokens.total();
    if known_total == 0 && unknown_total == 0 {
        assert(models_of(messages@) =~= before + entry_messages(*entry, session));
        return;
    }
    let known = known_total > 0 || positive;
    if known {
        let message = make_message(
            entry,
            session_id,
            timestamp,
            known_tokens,
            known_costs,
            true,
            1,
        );
        messages.push(message);
        assert(models_of(messages@) =~= before.push(message@));
    }
    if unknown_total > 0 {
        let ghost between = models_of(messages@);
        let mut no_cost: Vec<u64> = Vec::new();
        no_cost.push(0);
        assert(no_cost@ =~= seq![0u64]);
        let count: i32 = if known {
            0
        } else {
            1
        };
        let message = make_message(
            entry,
            session_id,
            timestamp,
            unknown_tokens,
            no_cost,
            false,
            count,
        );
        messages.push(message);
        assert(models_of(messages@) =~= between.push(message@));
    }
    assert(models_of(messages@) =~= before + entry_messages(*entry, session));
}

/// The rows of several models, in their order.
pub open spec fn entries_messages(entries: Seq<MuxModelEntry>, session: MuxSession) -> Seq<
    MessageModel,
>
    decreases entries.len(),
{
    if entries.len() == 0 {
        Seq::empty()
    } else {
        entries_messages(entries.drop_last(), session) + entry_messages(entries.last(), session)
    }
}

/// Whether every model has one entry.
pub open spec fn distinct_models(entries: Seq<MuxModelEntry>) -> bool {
    forall|a: int, b: int|
        0 <= a < b < entries.len() ==> (#[trigger] entries[a]).model_key@ != (
        #[trigger] entries[b]).model_key@
}

impl MuxSessionUsage {
    /// A usage file has one entry for each model, in any order.
    pub open spec fn wf(self) -> bool {
        self.by_model matches Some(entries) ==> distinct_models(entries@)
    }

    /// The time of a session: that of its last request, else that of its file.
    pub open spec fn time(self, modified_ms: i64) -> i64 {
        match self.last_request {
            Some(MuxLastRequest { timestamp: Some(timestamp), .. }) => timestamp,
            _ => modified_ms,
        }
    }
}

/// Turns the usage file of a workspace into messages: one or two for each model, two where the
/// cost of some of its tokens is known and that of others is not.
pub fn parse_mux_file(usage: &MuxSessionUsage, session_id: &str, modified_ms: i64) -> (messages:
    Vec<UnifiedMessage>)
    requires
        usage.wf(),
    ensures
        match usage.by_model {
            Some(entries) => models_of(messages@) == entries_messages(
                entries@,
                (MuxSession { session_id: session_id@, timestamp: usage.time(modified_ms) }),
            ),
            None => messages@.len() == 0,
        },
        forall|i: int, j: int|
            0 <= i < j < messages@.len() ==> (#[trigger] models_of(messages@)[i]).dedup_key != (
            #[trigger] models_of(messages@)[j]).dedup_key,
{
    let timestamp: i64 = match &usage.last_request {
        Some(last_request) => match last_request.timestamp {
            Some(timestamp) => timestamp,
            None => modified_ms,
        },
        None => modified_ms,
    };
    let mut messages: Vec<UnifiedMessage> = Vec::new();
    if let Some(entries) = &usage.by_model {
        let ghost session = MuxSession { session_id: session_id@, timestamp };
        let mut i: usize = 0;
        assert(models_of(messages@) =~= entries_messages(entries@.take(0), session));
        while i < entries.len()
            invariant
                i <= entries@.len(),
                session == (MuxSession { session_id: session_id@, timestamp }),
                models_of(messages@) == entries_messages(entries@.take(i as int), session),
            decreases entries@.len() - i,
        {
            proof {
                assert(entries@.take(i + 1).drop_last() =~= entries@.take(i as int));
                assert(entries@.take(i + 1).last() == entries@[i as int]);
            }
            push_entry(&entries[i], session_id, timestamp, &mut messages);
            i = i + 1;
        }
        assert(entries@.take(i as int) =~= entries@);
        proof {
            let rows = models_of(messages@);
            assert forall|i: int, j: int| 0 <= i < j < rows.len() implies (
            #[trigger] rows[i]).dedup_key != (#[trigger] rows[j]).dedup_key by {
                lemma_rows_have_own_keys(entries@, session, i, j);
            }
        }
    }
    messages
}

/// The sum of one kind of tokens over messages.
pub open spec fn kind_sum(
    messages: Seq<MessageModel>,
    kind: spec_fn(TokenBreakdown) -> i64,
) -> int
    decreases messages.len(),
{
    if messages.len() == 0 {
        0
    } else {
        kind_sum(messages.drop_last(), kind) + kind(messages.last().tokens)
    }
}

/// The sum of the message counts.
pub open spec fn count_sum(messages: Seq<MessageModel>) -> int
    decreases messages.len(),
{
    if messages.len() == 0 {
        0
    } else {
        count_sum(messages.drop_last()) + messages.last().message_count
    }
}

proof fn lemma_total_zero(tokens: TokenBreakdown)
    requires
        tokens.non_negative(),
        tokens.clamped_total() == 0,
    ensures
        tokens.input == 0,
        tokens.output == 0,
        tokens.cache_read == 0,
        tokens.cache_write == 0,
        tokens.reasoning == 0,
{
}

proof fn lemma_kind_sum(
    entry: MuxModelEntry,
    session: MuxSession,
    kind: spec_fn(TokenBreakdown) -> i64,
)
    ensures
        ({
            let messages = entry_messages(entry, session);
            let known = kind(entry.usage.share(true));
            let unknown = kind(entry.usage.share(false));
            let known_total = entry.usage.share(true).clamped_total();
            let unknown_total = entry.usage.share(false).clamped_total();
            &&& messages.len() == 2 ==> kind_sum(messages, kind) == known + unknown
            &&& messages.len() == 1 ==> {
                ||| unknown_total == 0 && kind_sum(messages, kind) == known
                ||| known_total == 0 && kind_sum(messages, kind) == unknown
            }
            &&& messages.len() == 0 ==> known_total == 0 && unknown_total == 0 && kind_sum(
                messages,
                kind,
            ) == 0
        }),
{
    reveal_with_fuel(kind_sum, 3);
    let messages = entry_messages(entry, session);
    if messages.len() == 2 {
        assert(messages.drop_last().drop_last().len() == 0);
        assert(messages.drop_last().last() == messages[0]);
    }
}

/// No token is lost or counted twice: for each kind, the rows of a model have together the
/// tokens of its bucket.
pub proof fn lemma_tokens_kept(entry: MuxModelEntry, session: MuxSession)
    ensures
        kind_sum(entry_messages(entry, session), |tokens: TokenBreakdown| tokens.input)
            == bucket_tokens(entry.usage.input),
        kind_sum(entry_messages(entry, session), |tokens: TokenBreakdown| tokens.cache_read)
            == bucket_tokens(entry.usage.cached),
        kind_sum(entry_messages(entry, session), |tokens: TokenBreakdown| tokens.cache_write)
            == bucket_tokens(entry.usage.cache_create),
        kind_sum(entry_messages(entry, session), |tokens: TokenBreakdown| tokens.output)
            == bucket_tokens(entry.usage.output),
        kind_sum(entry_messages(entry, session), |tokens: TokenBreakdown| tokens.reasoning)
            == bucket_tokens(entry.usage.reasoning),
{
    let known = entry.usage.share(true);
    let unknown = entry.usage.share(false);
    if known.clamped_total() == 0 {
        lemma_total_zero(known);
    }
    if unknown.clamped_total() == 0 {
        lemma_total_zero(unknown);
    }
    lemma_kind_sum(entry, session, |tokens: TokenBreakdown| tokens.input);
    lemma_kind_sum(entry, session, |tokens: TokenBreakdown| tokens.cache_read);
    lemma_kind_sum(entry, session, |tokens: TokenBreakdown| tokens.cache_write);
    lemma_kind_sum(entry, session, |tokens: TokenBreakdown| tokens.output);
    lemma_kind_sum(entry, session, |tokens: TokenBreakdown| tokens.reasoning);
}

/// A model counts as one message, however its tokens are split, and as none without tokens.
pub proof fn lemma_one_message(entry: MuxModelEntry, session: MuxSession)
    ensures
        count_sum(entry_messages(entry, session)) == (if entry_messages(entry, session).len() == 0 {
            0int
        } else {
            1
        }),
{
    reveal_with_fuel(count_sum, 3);
    let messages = entry_messages(entry, session);
    if messages.len() == 2 {
        assert(messages.drop_last().drop_last().len() == 0);
        assert(messages.drop_last().last() == messages[0]);
    }
}

proof fn lemma_same_start(a: Seq<char>, b: Seq<char>, c: Seq<char>)
    requires
        a + b == a + c,
    ensures
        b == c,
{
    assert((a + b).skip(a.len() as int) =~= b);
    assert((a + c).skip(a.len() as int) =~= c);
}

proof fn lemma_same_end(a: Seq<char>, b: Seq<char>, c: Seq<char>)
    requires
        a + c == b + c,
    ensures
        a == b,
{
    assert((a + c).len() == a.len() + c.len());
    assert((b + c).len() == b.len() + c.len());
    assert((a + c).take(a.len() as int) =~= a);
    assert((b + c).take(a.len() as int) =~= b);
}

/// Within a workspace, the keys tell models apart, and the two rows of a split.
pub proof fn lemma_dedup_keys_within_session(
    session_id: Seq<char>,
    first: Seq<char>,
    first_known: bool,
    second: Seq<char>,
    second_known: bool,
)
    requires
        dedup_key_of(session_id, first, first_known) == dedup_key_of(
            session_id,
            second,
            second_known,
        ),
    ensures
        first == second,
        first_known == second_known,
{
    reveal_strlit(":known");
    reveal_strlit(":unknown");
    let start = "mux:"@ + session_id + ":"@;
    let first_end = if first_known {
        ":known"@
    } else {
        ":unknown"@
    };
    let second_end = if second_known {
        ":known"@
    } else {
        ":unknown"@
    };
    assert(start + first + first_end =~= start + (first + first_end));
    assert(start + second + second_end =~= start + (second + second_end));
    lemma_same_start(start, first + first_end, second + second_end);
    if first_known == second_known {
        lemma_same_end(first, second, first_end);
    } else {
        let a = first + first_end;
        let b = second + second_end;
        assert(a[a.len() - 6] == b[b.len() - 6]);
        if first_known {
            assert(a[a.len() - 6] == first_end[0]);
            assert(b[b.len() - 6] == second_end[2]);
        } else {
            assert(a[a.len() - 6] == first_end[2]);
            assert(b[b.len() - 6] == second_end[0]);
        }
    }
}

/// Two workspaces that report the same model have different keys.
pub proof fn lemma_dedup_keys_across_sessions(
    first: Seq<char>,
    second: Seq<char>,
    model_key: Seq<char>,
    known: bool,
)
    requires
        first != second,
    ensures
        dedup_key_of(first, model_key, known) != dedup_key_of(second, model_key, known),
{
    let end = if known {
        ":known"@
    } else {
        ":unknown"@
    };
    if dedup_key_of(first, model_key, known) == dedup_key_of(second, model_key, known) {
        lemma_same_end("mux:"@ + first + ":"@ + model_key, "mux:"@ + second + ":"@ + model_key, end);
        lemma_same_end("mux:"@ + first + ":"@, "mux:"@ + second + ":"@, model_key);
        lemma_same_end("mux:"@ + first, "mux:"@ + second, ":"@);
        lemma_same_start("mux:"@, first, second);
    }
}

/// The row of a file at a position comes from some model, and has the key of one of its shares.
proof fn lemma_message_origin(
    entries: Seq<MuxModelEntry>,
    session: MuxSession,
    at: int,
) -> (origin: (int, bool))
    requires
        0 <= at < entries_messages(entries, session).len(),
    ensures
        0 <= origin.0 < entries.len(),
        entries_messages(entries, session)[at].dedup_key == Some(
            dedup_key_of(session.session_id, entries[origin.0].model_key@, origin.1),
        ),
    decreases entries.len(),
{
    let earlier = entries_messages(entries.drop_last(), session);
    let added = entry_messages(entries.last(), session);
    if at < earlier.len() {
        lemma_message_origin(entries.drop_last(), session, at)
    } else {
        let place = at - earlier.len();
        let known = added[place].cost_source == CostSource::ProviderReported;
        (entries.len() - 1, known)
    }
}

/// The rows of a file have different keys.
pub proof fn lemma_rows_have_own_keys(
    entries: Seq<MuxModelEntry>,
    session: MuxSession,
    i: int,
    j: int,
)
    requires
        distinct_models(entries),
        0 <= i < j < entries_messages(entries, session).len(),
    ensures
        entries_messages(entries, session)[i].dedup_key is Some,
        entries_messages(entries, session)[i].dedup_key != entries_messages(
            entries,
            session,
        )[j].dedup_key,
    decreases entries.len(),
{
    let before = entries.drop_last();
    let earlier = entries_messages(before, session);
    let added = entry_messages(entries.last(), session);
    let all = entries_messages(entries, session);
    if j < earlier.len() {
        lemma_rows_have_own_keys(before, session, i, j);
    } else if i < earlier.len() {
        let origin = lemma_message_origin(before, session, i);
        let place = j - earlier.len();
        let known = added[place].cost_source == CostSource::ProviderReported;
        assert(before[origin.0] == entries[origin.0]);
        assert(entries[entries.len() - 1] == entries.last());
        if all[i].dedup_key == all[j].dedup_key {
            lemma_dedup_keys_within_session(
                session.session_id,
                entries[origin.0].model_key@,
                origin.1,
                entries.last().model_key@,
                known,
            );
        }
    } else {
        let key = entries.last().model_key@;
        if all[i].dedup_key == all[j].dedup_key {
            lemma_dedup_keys_within_session(session.session_id, key, true, key, false);
        }
    }
}

// ---------------------------------------------------------------------------
// What the rows say
// ---------------------------------------------------------------------------
/// Whether a bucket has a cost that counts.
pub open spec fn is_priced(bucket: Option<MuxTokenBucket>) -> bool {
    bucket matches Some(bucket) && bucket.cost_usd matches Some(bits) && is_valid_cost(bits)
}

/// The cost of a bucket as a list, empty where it has none that counts.
pub open spec fn price_list(bucket: Option<MuxTokenBucket>) -> Seq<u64> {
    if is_priced(bucket) {
        seq![bucket->0.cost_usd->0]
    } else {
        Seq::empty()
    }
}

/// Whether a count is that of a bucket: the number of tokens that it has, where that is not
/// negative, else zero.
pub open spec fn is_count_of(count: i64, bucket: Option<MuxTokenBucket>) -> bool {
    match bucket {
        Some(MuxTokenBucket { tokens: Some(tokens), .. }) => (tokens >= 0 ==> count == tokens) && (
        tokens < 0 ==> count == 0),
        _ => count == 0,
    }
}

/// Whether a bucket has tokens.
pub open spec fn has_tokens(bucket: Option<MuxTokenBucket>) -> bool {
    bucket matches Some(bucket) && bucket.tokens matches Some(tokens) && tokens > 0
}

/// The five buckets of a model.
pub open spec fn buckets(usage: MuxModelUsage) -> Seq<Option<MuxTokenBucket>> {
    seq![usage.input, usage.cached, usage.cache_create, usage.output, usage.reasoning]
}

/// The counts of a row, in the order of the buckets.
pub open spec fn counts_of(tokens: TokenBreakdown) -> Seq<i64> {
    seq![tokens.input, tokens.cache_read, tokens.cache_write, tokens.output, tokens.reasoning]
}

/// No cost is lost or counted twice: a row with the provider's cost has, behind a zero, the
/// costs of all five buckets that count, each once. A row without has no cost.
pub proof fn lemma_costs_kept(entry: MuxModelEntry, session: MuxSession, row: MessageModel)
    requires
        entry_messages(entry, session).contains(row),
    ensures
        row.cost_source == CostSource::ProviderReported || row.cost_source == CostSource::Unknown,
        row.cost_source == CostSource::ProviderReported ==> row.cost_terms == seq![0u64]
            + price_list(entry.usage.input) + price_list(entry.usage.cached) + price_list(
            entry.usage.cache_create,
        ) + price_list(entry.usage.output) + price_list(entry.usage.reasoning),
        row.cost_source == CostSource::ProviderReported ==> row.cost_terms.to_multiset()
            == Multiset::singleton(0u64).add(price_list(entry.usage.input).to_multiset()).add(
            price_list(entry.usage.cached).to_multiset(),
        ).add(price_list(entry.usage.cache_create).to_multiset()).add(
            price_list(entry.usage.output).to_multiset(),
        ).add(price_list(entry.usage.reasoning).to_multiset()),
        row.cost_source == CostSource::Unknown ==> row.cost_terms == seq![0u64],
{
    if row.cost_source == CostSource::ProviderReported {
        let usage = entry.usage;
        let input = seq![0u64] + price_list(usage.input);
        let cached = input + price_list(usage.cached);
        let cache_create = cached + price_list(usage.cache_create);
        let output = cache_create + price_list(usage.output);
        assert(row.cost_terms == usage.known_costs());
        assert(with_cost(seq![0u64], usage.input) =~= input);
        assert(with_cost(input, usage.cached) =~= cached);
        assert(with_cost(cached, usage.cache_create) =~= cache_create);
        assert(with_cost(cache_create, usage.output) =~= output);
        assert(row.cost_terms =~= output + price_list(usage.reasoning));
        broadcast use {to_multiset_build, vstd::multiset::group_multiset_axioms};

        lemma_multiset_commutative(seq![0u64], price_list(usage.input));
        lemma_multiset_commutative(input, price_list(usage.cached));
        lemma_multiset_commutative(cached, price_list(usage.cache_create));
        lemma_multiset_commutative(cache_create, price_list(usage.output));
        lemma_multiset_commutative(output, price_list(usage.reasoning));
        assert(seq![0u64] =~= Seq::<u64>::empty().push(0u64));
        to_multiset_len(Seq::<u64>::empty());
        assert(Seq::<u64>::empty().to_multiset() =~= Multiset::empty());
        assert(seq![0u64].to_multiset() =~= Multiset::singleton(0u64));
    }
}

/// A bucket's cost goes where its tokens go: the tokens of a bucket with a cost that counts are
/// in the row with the provider's cost, which has that cost among its terms, and the tokens of
/// the other buckets are in the other row. Each kind has the tokens of its own bucket.
pub proof fn lemma_tokens_go_with_their_cost(
    entry: MuxModelEntry,
    session: MuxSession,
    row: MessageModel,
    at: int,
)
    requires
        entry_messages(entry, session).contains(row),
        0 <= at < 5,
    ensures
        ({
            let bucket = buckets(entry.usage)[at];
            let count = counts_of(row.tokens)[at];
            let known = row.cost_source == CostSource::ProviderReported;
            &&& is_priced(bucket) == known ==> is_count_of(count, bucket)
            &&& is_priced(bucket) != known ==> count == 0
            &&& is_priced(bucket) && known ==> row.cost_terms.contains(bucket->0.cost_usd->0)
        }),
        row.tokens.cache_write_1h == 0,
{
    let bucket = buckets(entry.usage)[at];
    if is_priced(bucket) && row.cost_source == CostSource::ProviderReported {
        lemma_costs_kept(entry, session, row);
        let usage = entry.usage;
        let bits = bucket->0.cost_usd->0;
        let n0 = 1int;
        let n1 = n0 + price_list(usage.input).len();
        let n2 = n1 + price_list(usage.cached).len();
        let n3 = n2 + price_list(usage.cache_create).len();
        let n4 = n3 + price_list(usage.output).len();
        let place = if at == 0 {
            n0
        } else if at == 1 {
            n1
        } else if at == 2 {
            n2
        } else if at == 3 {
            n3
        } else {
            n4
        };
        assert(row.cost_terms[place] == bits);
    }
}

/// A model has a row with the provider's cost where a bucket with tokens has a cost that counts,
/// or where it has tokens at all and a cost above zero. It has a row without where a bucket with
/// tokens has no cost that counts. The row with the cost comes first, and the first row counts
/// as the message.
pub proof fn lemma_rows_of_a_model(entry: MuxModelEntry, session: MuxSession)
    ensures
        ({
            let rows = entry_messages(entry, session);
            let usage = entry.usage;
            let priced = exists|i: int|
                0 <= i < 5 && is_priced(#[trigger] buckets(usage)[i]) && has_tokens(
                    buckets(usage)[i],
                );
            let unpriced = exists|i: int|
                0 <= i < 5 && !is_priced(#[trigger] buckets(usage)[i]) && has_tokens(
                    buckets(usage)[i],
                );
            let paid = exists|i: int|
                0 <= i < 5 && is_priced(#[trigger] buckets(usage)[i]) && is_positive_cost(
                    buckets(usage)[i]->0.cost_usd->0,
                );
            let known = priced || unpriced && paid;
            &&& rows.len() == (if known {
                1int
            } else {
                0
            }) + (if unpriced {
                1int
            } else {
                0
            })
            &&& known ==> rows[0].cost_source == CostSource::ProviderReported
            &&& unpriced ==> rows.last().cost_source == CostSource::Unknown
            &&& rows.len() > 0 ==> rows[0].message_count == 1
            &&& rows.len() == 2 ==> rows[1].message_count == 0
        }),
{
    let usage = entry.usage;
    let all = buckets(usage);
    assert(all[0] == usage.input && all[1] == usage.cached && all[2] == usage.cache_create && all[3]
        == usage.output && all[4] == usage.reasoning);
    lemma_totals_count_every_kind(usage.share(true));
    lemma_totals_count_every_kind(usage.share(false));
}

/// The rows of a model name the session, its time, and the provider and the model of its key:
/// what stands before and behind the first colon, or no provider where there is no colon. The
/// provider's canonical name comes before the one in the key.
pub proof fn lemma_names_of_a_row(entry: MuxModelEntry, session: MuxSession, row: MessageModel)
    requires
        entry_messages(entry, session).contains(row),
    ensures
        row.client == "mux"@,
        row.session_id == session.session_id,
        row.timestamp == session.timestamp,
        entry.model_key@.contains(':') ==> exists|prefix: Seq<char>|
            #![trigger prefix.push(':')]
            entry.model_key@ == prefix.push(':') + row.model_id && !prefix.contains(':') && (
            entry.canonical_provider is None ==> row.provider_id == prefix),
        !entry.model_key@.contains(':') ==> row.model_id == entry.model_key@ && (
        entry.canonical_provider is None ==> row.provider_id.len() == 0),
        entry.canonical_provider matches Some(provider) ==> row.provider_id == provider@,
        row.dedup_key == Some(
            "mux:"@ + session.session_id + ":"@ + entry.model_key@ + (if row.cost_source
                == CostSource::ProviderReported {
                ":known"@
            } else {
                ":unknown"@
            }),
        ),
        row.agent is None,
        row.workspace_key is None,
        row.workspace_label is None,
        row.duration_ms is None,
        !row.is_turn_start,
{
    lemma_split_parts(entry.model_key@, ':');
    if let Some((prefix, model)) = split_first(entry.model_key@, ':') {
        assert(entry.model_key@ == prefix.push(':') + row.model_id);
        let at = prefix.len() as int;
        assert(entry.model_key@[at] == ':');
    }
}

/// A file has the rows of its models, one model behind another in the order of the file. They
/// have the time of the last request, or that of the file where it says none.
pub proof fn lemma_rows_of_a_file(
    usage: MuxSessionUsage,
    session_id: Seq<char>,
    modified_ms: i64,
    messages: Seq<UnifiedMessage>,
)
    requires
        usage.by_model matches Some(entries) && models_of(messages) == entries_messages(
            entries@,
            (MuxSession { session_id, timestamp: usage.time(modified_ms) }),
        ),
    ensures
        exists|session: MuxSession| #![trigger session.session_id]
            session.session_id == session_id && session.timestamp == (if usage.last_request is Some
                && usage.last_request->0.timestamp is Some {
                usage.last_request->0.timestamp->0
            } else {
                modified_ms
            }) && models_of(messages) == usage.by_model->0@.map_values(
                |entry: MuxModelEntry| entry_messages(entry, session),
            ).flatten(),
{
    let session = MuxSession { session_id, timestamp: usage.time(modified_ms) };
    lemma_entries_flatten(usage.by_model->0@, session);
    assert(session.session_id == session_id);
}

proof fn lemma_entries_flatten(entries: Seq<MuxModelEntry>, session: MuxSession)
    ensures
        entries_messages(entries, session) == entries.map_values(
            |entry: MuxModelEntry| entry_messages(entry, session),
        ).flatten(),
    decreases entries.len(),
{
    let rows = entries.map_values(|entry: MuxModelEntry| entry_messages(entry, session));
    if entries.len() > 0 {
        let before = entries.drop_last();
        let earlier = before.map_values(|entry: MuxModelEntry| entry_messages(entry, session));
        lemma_entries_flatten(before, session);
        assert(rows =~= earlier.push(entry_messages(entries.last(), session)));
        earlier.lemma_flatten_push(entry_messages(entries.last(), session));
    } else {
        assert(rows =~= Seq::empty());
    }
}

} // verus!
