//! Antigravity CLI conversations.
//!
//! A conversation is a SQLite database. Each `gen_metadata` row is one generation, a protobuf
//! message of which these fields are read:
//!
//! - `#1` chat model
//!   - `#19` response model
//!   - `#9.#4` = `{#1: seconds, #2: nanos}` time of the generation (older clients only)
//!   - `#4` usage
//!     - `#1` fixed system prompt tokens, `#2` newly processed input tokens
//!     - `#5` tokens read from the cache, `#9` output tokens, `#10` thinking tokens
//!     - `#11` response id
//!
//! The single `trajectory_metadata_blob` row holds the time at which the conversation was
//! created (`#2`) and the workspace URI (`#1.#1`). A row of `steps` with `step_type = 15` is a
//! model turn: its time (`#1`), its response id (`#9.#11`) and its generation index (`#20.#3`).
use vstd::hash_set::StringHashSet;
use vstd::prelude::*;
use vstd::utf8::*;

use crate::messages::{
    clamp_i64, copy_text, models_of, saturating_sum, text_of, CostSource, MessageModel,
    TokenBreakdown, UnifiedMessage,
};
use crate::ordered::{strip_prefix, Ordered, SortedTable};
use crate::text::{is_blank, is_white_space, lemma_blank, lossy_text, trimmed, utf8_lossy};
use crate::wire::{message_field, message_in, string_field, string_in, varint_field, varint_in};

verus! {

// ---------------------------------------------------------------------------
// Timestamps
// ---------------------------------------------------------------------------
/// A 64-bit pattern read as a two's complement number.
pub open spec fn signed(raw: u64) -> int {
    if raw <= i64::MAX {
        raw as int
    } else {
        raw - 0x1_0000_0000_0000_0000
    }
}

/// The epoch milliseconds of a `{#1: seconds, #2: nanos}` message. There is none without
/// seconds, with nanos beyond 999,999,999, or where a step leaves the range of `i64`.
pub open spec fn timestamp_ms(ts: Seq<u8>) -> Option<i64> {
    match varint_in(ts, 1) {
        None => None,
        Some(raw) => {
            let nanos: u64 = match varint_in(ts, 2) {
                Some(nanos) => nanos,
                None => 0,
            };
            let whole = signed(raw) * 1000;
            let exact = whole + nanos / 1_000_000;
            if nanos <= 999_999_999 && i64::MIN <= whole <= i64::MAX && exact <= i64::MAX {
                Some(exact as i64)
            } else {
                None
            }
        },
    }
}

/// A time that counts: one after the epoch.
pub open spec fn positive(ms: Option<i64>) -> Option<i64> {
    match ms {
        Some(ms) if ms > 0 => Some(ms),
        _ => None,
    }
}

fn as_signed(raw: u64) -> (value: i64)
    ensures
        value == signed(raw),
{
    if raw <= i64::MAX as u64 {
        raw as i64
    } else {
        let below: u64 = u64::MAX - raw;
        -(below as i64) - 1
    }
}

/// Decodes a protobuf `{#1: seconds, #2: nanos}` timestamp to epoch milliseconds.
pub fn proto_timestamp_ms(ts: &[u8]) -> (ms: Option<i64>)
    ensures
        ms == timestamp_ms(ts@),
{
    let seconds: i64 = match varint_field(ts, 1) {
        Some(raw) => as_signed(raw),
        None => return None,
    };
    let nanos: u64 = match varint_field(ts, 2) {
        Some(nanos) => nanos,
        None => 0,
    };
    if nanos > 999_999_999 {
        return None;
    }
    match seconds.checked_mul(1000) {
        Some(whole) => whole.checked_add((nanos / 1_000_000) as i64),
        None => None,
    }
}

fn positive_ms(ms: Option<i64>) -> (kept: Option<i64>)
    ensures
        kept == positive(ms),
{
    match ms {
        Some(ms) => if ms > 0 {
            Some(ms)
        } else {
            None
        },
        None => None,
    }
}

/// The time at which a conversation was created, in its trajectory metadata.
pub open spec fn created_ms(trajectory: Seq<u8>) -> Option<i64> {
    match message_in(trajectory, 2) {
        Some(ts) => timestamp_ms(ts),
        None => None,
    }
}

pub fn session_created_ms(blob: &[u8]) -> (ms: Option<i64>)
    ensures
        ms == created_ms(blob@),
{
    match message_field(blob, 2) {
        Some(ts) => proto_timestamp_ms(ts),
        None => None,
    }
}

// ---------------------------------------------------------------------------
// Workspace paths
// ---------------------------------------------------------------------------
/// The value of a hexadecimal digit.
pub open spec fn hex_digit(byte: u8) -> Option<u8> {
    if 0x30 <= byte <= 0x39 {
        Some((byte - 0x30) as u8)
    } else if 0x61 <= byte <= 0x66 {
        Some((byte - 0x61 + 10) as u8)
    } else if 0x41 <= byte <= 0x46 {
        Some((byte - 0x41 + 10) as u8)
    } else {
        None
    }
}

pub fn hex_value(byte: u8) -> (value: Option<u8>)
    ensures
        value == hex_digit(byte),
        value matches Some(digit) ==> digit < 16,
{
    if 0x30 <= byte && byte <= 0x39 {
        Some(byte - 0x30)
    } else if 0x61 <= byte && byte <= 0x66 {
        Some(byte - 0x61 + 10)
    } else if 0x41 <= byte && byte <= 0x46 {
        Some(byte - 0x41 + 10)
    } else {
        None
    }
}

/// Whether bytes begin with a percent sign and two hexadecimal digits.
pub open spec fn is_escape(bytes: Seq<u8>) -> bool {
    bytes.len() >= 3 && bytes[0] == 0x25 && hex_digit(bytes[1]) is Some && hex_digit(bytes[2]) is Some
}

/// The bytes with every percent escape replaced by the byte that it stands for.
pub open spec fn unescaped(bytes: Seq<u8>) -> Seq<u8>
    decreases bytes.len(),
{
    if bytes.len() == 0 {
        Seq::empty()
    } else if is_escape(bytes) {
        seq![(hex_digit(bytes[1])->0 * 16 + hex_digit(bytes[2])->0) as u8] + unescaped(bytes.skip(3))
    } else {
        seq![bytes[0]] + unescaped(bytes.skip(1))
    }
}

/// A URI part with its percent escapes decoded.
pub open spec fn decoded(uri: Seq<char>) -> Seq<char> {
    lossy_text(unescaped(encode_utf8(uri)))
}

/// Decodes the percent escapes of a URI part. What is no UTF-8 then is replaced.
pub fn percent_decode(input: &str) -> (text: String)
    ensures
        text@ == decoded(input@),
        valid_utf8(unescaped(encode_utf8(input@))) ==> text@ == decode_utf8(
            unescaped(encode_utf8(input@)),
        ),
{
    let bytes = input.as_bytes();
    let mut out: Vec<u8> = Vec::new();
    let mut i: usize = 0;
    assert(bytes@.skip(0) =~= bytes@);
    assert(out@ + unescaped(bytes@) =~= unescaped(bytes@));
    while i < bytes.len()
        invariant
            i <= bytes@.len(),
            out@ + unescaped(bytes@.skip(i as int)) == unescaped(bytes@),
        decreases bytes@.len() - i,
    {
        let ghost rest = bytes@.skip(i as int);
        let ghost before = out@;
        if bytes[i] == 0x25 && bytes.len() - i > 2 {
            if let Some(hi) = hex_value(bytes[i + 1]) {
                if let Some(lo) = hex_value(bytes[i + 2]) {
                    proof {
                        assert(is_escape(rest));
                        assert(rest.skip(3) =~= bytes@.skip(i + 3));
                    }
                    let byte: u8 = hi * 16 + lo;
                    out.push(byte);
                    i = i + 3;
                    assert(out@ + unescaped(bytes@.skip(i as int)) =~= before + unescaped(rest));
                    continue;
                }
            }
        }
        proof {
            assert(!is_escape(rest));
            assert(rest.skip(1) =~= bytes@.skip(i + 1));
        }
        out.push(bytes[i]);
        i = i + 1;
        assert(out@ + unescaped(bytes@.skip(i as int)) =~= before + unescaped(rest));
    }
    assert(bytes@.skip(i as int) =~= Seq::<u8>::empty());
    assert(out@ =~= unescaped(bytes@));
    utf8_lossy(out.as_slice())
}

/// The filesystem path behind the scheme of a `file` URI, its escapes decoded: without the slash
/// before a drive letter, as it stands where it is absolute, and with two slashes in front where
/// it begins with a host.
pub open spec fn uri_body_path(body: Seq<char>) -> Seq<char> {
    let bytes = encode_utf8(body);
    if bytes.len() > 0 && bytes[0] == 0x2f {
        if bytes.len() >= 3 && bytes[2] == 0x3a {
            body.skip(1)
        } else {
            body
        }
    } else {
        seq!['/', '/'] + body
    }
}

/// The path of a `file://` URI.
pub open spec fn uri_path(uri: Seq<char>) -> Option<Seq<char>> {
    let scheme = seq!['f', 'i', 'l', 'e', ':', '/', '/'];
    if scheme.is_prefix_of(uri) {
        Some(uri_body_path(decoded(uri.skip(7))))
    } else {
        None
    }
}

/// What a decoded URI body says of the path.
pub fn decoded_body_path(body: String) -> (path: String)
    ensures
        path@ == uri_body_path(body@),
{
    let bytes = body.as_str().as_bytes();
    if bytes.len() > 0 && bytes[0] == 0x2f {
        if bytes.len() >= 3 && bytes[2] == 0x3a {
            let length: usize = body.as_str().unicode_len();
            proof {
                if body@.len() == 0 {
                    assert(encode_utf8(body@).len() == 0);
                }
            }
            let rest = body.as_str().substring_char(1, length);
            assert(rest@ =~= body@.skip(1));
            rest.to_owned()
        } else {
            body
        }
    } else {
        proof {
            reveal_strlit("//");
            assert("//"@ =~= seq!['/', '/']);
        }
        let mut path = "//".to_owned();
        path.append(body.as_str());
        path
    }
}

/// Converts a `file://` URI to a filesystem path:
/// - `file:///C:/x` is `C:/x`
/// - `file:///home/x` is `/home/x`
/// - `file://host/share/x` is `//host/share/x`
pub fn file_uri_to_path(uri: &str) -> (path: Option<String>)
    ensures
        text_of(path) == uri_path(uri@),
        path is Some && valid_utf8(unescaped(encode_utf8(uri@.skip(7)))) ==> path->0@
            == uri_body_path(decode_utf8(unescaped(encode_utf8(uri@.skip(7))))),
{
    proof {
        reveal_strlit("file://");
        assert("file://"@ =~= seq!['f', 'i', 'l', 'e', ':', '/', '/']);
    }
    match strip_prefix(uri, "file://") {
        None => None,
        Some(rest) => {
            proof {
                assert(uri@.skip(7) =~= rest@);
                assert("file://"@.is_prefix_of(uri@));
            }
            Some(decoded_body_path(percent_decode(rest)))
        },
    }
}

/// The path of the workspace that the trajectory metadata names.
pub open spec fn workspace_in(trajectory: Seq<u8>) -> Option<Seq<char>> {
    match message_in(trajectory, 1) {
        Some(folder) => match string_in(folder, 1) {
            Some(uri) => uri_path(uri),
            None => None,
        },
        None => None,
    }
}

/// The path of the workspace that the trajectory metadata names, for the host to turn into a
/// workspace key and label.
pub fn workspace_path(trajectory: &[u8]) -> (path: Option<String>)
    ensures
        text_of(path) == workspace_in(trajectory@),
{
    match message_field(trajectory, 1) {
        Some(folder) => match string_field(folder, 1) {
            Some(uri) => file_uri_to_path(uri),
            None => None,
        },
        None => None,
    }
}

// ---------------------------------------------------------------------------
// Model turns
// ---------------------------------------------------------------------------
/// The time of the turns that were recorded for one key.
#[derive(Debug, Clone, Copy, PartialEq, Eq, Structural)]
pub enum StepTimestamp {
    /// One turn has the key.
    Unique(i64),
    /// Several turns have it, so that it dates none.
    Ambiguous,
}

/// A slot tells how many turns were recorded for its key, and the time of a single one.
pub open spec fn slot_holds(slot: Option<StepTimestamp>, times: Seq<i64>) -> bool {
    match slot {
        None => times.len() == 0,
        Some(StepTimestamp::Unique(ms)) => times == seq![ms],
        Some(StepTimestamp::Ambiguous) => times.len() > 1,
    }
}

impl StepTimestamp {
    /// The time, where it is the only one and after the epoch.
    pub open spec fn unique_ms(self) -> Option<i64> {
        match self {
            StepTimestamp::Unique(ms) => positive(Some(ms)),
            StepTimestamp::Ambiguous => None,
        }
    }

    pub fn unique(&self) -> (ms: Option<i64>)
        ensures
            ms == self.unique_ms(),
    {
        match *self {
            StepTimestamp::Unique(ms) => positive_ms(Some(ms)),
            StepTimestamp::Ambiguous => None,
        }
    }

    /// Records one more turn for a key.
    pub fn record<K: Ordered>(table: &mut SortedTable<K, StepTimestamp>, key: K, ms: i64)
        requires
            old(table).wf(),
        ensures
            final(table).wf(),
            forall|times: Seq<i64>|
                slot_holds(old(table).get(key@), times) ==> slot_holds(
                    #[trigger] final(table).get(key@),
                    times.push(ms),
                ),
            forall|other: K::V| other != key@ ==> final(table).get(other) == old(table).get(other),
    {
        let slot = match table.lookup(&key) {
            Some(_) => StepTimestamp::Ambiguous,
            None => StepTimestamp::Unique(ms),
        };
        let ghost before = table.get(key@);
        table.set(key, slot);
        proof {
            assert forall|times: Seq<i64>| slot_holds(before, times) implies slot_holds(
                Some(slot),
                times.push(ms),
            ) by {
                if times.len() == 0 {
                    assert(times.push(ms) =~= seq![ms]);
                }
            }
        }
    }
}

/// The time of a model turn, in its metadata.
pub open spec fn step_time(metadata: Seq<u8>) -> Option<i64> {
    match message_in(metadata, 1) {
        Some(ts) => positive(timestamp_ms(ts)),
        None => None,
    }
}

/// The response id of a model turn, in its metadata.
pub open spec fn step_response_id(metadata: Seq<u8>) -> Option<Seq<u8>> {
    match message_in(metadata, 9) {
        Some(inner) => match message_in(inner, 11) {
            Some(key) if key.len() > 0 => Some(key),
            _ => None,
        },
        None => None,
    }
}

/// The generation index of a model turn, in its metadata.
pub open spec fn step_gen_idx(metadata: Seq<u8>) -> Option<i64> {
    match message_in(metadata, 20) {
        Some(inner) => match varint_in(inner, 3) {
            Some(idx) if idx <= i64::MAX => Some(idx as i64),
            _ => None,
        },
        None => None,
    }
}

/// The times of the dated turns with a response id.
pub open spec fn response_times(steps: Seq<Vec<u8>>, key: Seq<u8>) -> Seq<i64>
    decreases steps.len(),
{
    if steps.len() == 0 {
        Seq::empty()
    } else {
        let earlier = response_times(steps.drop_last(), key);
        match step_time(steps.last()@) {
            Some(ms) if step_response_id(steps.last()@) == Some(key) => earlier.push(ms),
            _ => earlier,
        }
    }
}

/// The times of the dated turns with a generation index.
pub open spec fn gen_idx_times(steps: Seq<Vec<u8>>, key: i64) -> Seq<i64>
    decreases steps.len(),
{
    if steps.len() == 0 {
        Seq::empty()
    } else {
        let earlier = gen_idx_times(steps.drop_last(), key);
        match step_time(steps.last()@) {
            Some(ms) if step_gen_idx(steps.last()@) == Some(key) => earlier.push(ms),
            _ => earlier,
        }
    }
}

/// The time that a slot answers.
pub open spec fn slot_ms(slot: Option<StepTimestamp>) -> Option<i64> {
    match slot {
        Some(slot) => slot.unique_ms(),
        None => None,
    }
}

/// The only time of a list.
pub open spec fn only(times: Seq<i64>) -> Option<i64> {
    if times.len() == 1 {
        positive(Some(times[0]))
    } else {
        None
    }
}

/// The times of model turns, by either key that joins a turn to a generation.
#[verifier::ext_equal]
pub ghost struct TurnTimes {
    pub by_response_id: spec_fn(Seq<u8>) -> Option<i64>,
    pub by_gen_idx: spec_fn(i64) -> Option<i64>,
}

/// The times that the turns give: a key dates a generation where exactly one dated turn has it.
pub open spec fn turn_times(steps: Seq<Vec<u8>>) -> TurnTimes {
    TurnTimes {
        by_response_id: |key: Seq<u8>| only(response_times(steps, key)),
        by_gen_idx: |key: i64| only(gen_idx_times(steps, key)),
    }
}

/// Times of model turns, by either key that joins a turn to a generation.
pub struct StepTimestamps {
    pub by_response_id: SortedTable<Vec<u8>, StepTimestamp>,
    pub by_gen_idx: SortedTable<i64, StepTimestamp>,
}

impl StepTimestamps {
    pub open spec fn wf(self) -> bool {
        self.by_response_id.wf() && self.by_gen_idx.wf()
    }

    /// The tables hold what was recorded of the turns.
    pub open spec fn holds(self, steps: Seq<Vec<u8>>) -> bool {
        &&& self.wf()
        &&& forall|key: Seq<u8>|
            slot_holds(#[trigger] self.by_response_id.get(key), response_times(steps, key))
        &&& forall|key: i64|
            slot_holds(#[trigger] self.by_gen_idx.get(key), gen_idx_times(steps, key))
    }

    /// The times that the tables answer.
    pub open spec fn times(self) -> TurnTimes {
        TurnTimes {
            by_response_id: |key: Seq<u8>| slot_ms(self.by_response_id.get(key)),
            by_gen_idx: |key: i64| slot_ms(self.by_gen_idx.get(key)),
        }
    }

    /// No turns.
    pub fn empty() -> (timestamps: Self)
        ensures
            timestamps.wf(),
            timestamps.holds(Seq::empty()),
            timestamps.times() == turn_times(Seq::empty()),
    {
        let timestamps = StepTimestamps {
            by_response_id: SortedTable::new(),
            by_gen_idx: SortedTable::new(),
        };
        assert(timestamps.times() =~= turn_times(Seq::empty()));
        timestamps
    }

    /// The time that a response id gives.
    pub fn response_time(&self, key: &[u8]) -> (ms: Option<i64>)
        requires
            self.wf(),
        ensures
            ms == (self.times().by_response_id)(key@),
    {
        let key = vstd::slice::slice_to_vec(key);
        match self.by_response_id.lookup(&key) {
            Some(slot) => slot.unique(),
            None => None,
        }
    }

    /// The time that a generation index gives.
    pub fn gen_idx_time(&self, key: i64) -> (ms: Option<i64>)
        requires
            self.wf(),
        ensures
            ms == (self.times().by_gen_idx)(key),
    {
        match self.by_gen_idx.lookup(&key) {
            Some(slot) => slot.unique(),
            None => None,
        }
    }
}

/// Collects the times of the model turns. A key that several turns have dates none of them: to
/// date a generation at the start of its session is better than to pick one of two times.
pub fn read_step_timestamps(steps: &Vec<Vec<u8>>) -> (timestamps: StepTimestamps)
    ensures
        timestamps.holds(steps@),
        timestamps.times() == turn_times(steps@),
{
    let mut timestamps = StepTimestamps::empty();
    let mut i: usize = 0;
    assert(steps@.take(0) =~= Seq::empty());
    while i < steps.len()
        invariant
            i <= steps@.len(),
            timestamps.holds(steps@.take(i as int)),
        decreases steps@.len() - i,
    {
        let metadata = steps[i].as_slice();
        let ghost earlier = steps@.take(i as int);
        let ghost before = timestamps;
        let time: Option<i64> = match message_field(metadata, 1) {
            Some(ts) => positive_ms(proto_timestamp_ms(ts)),
            None => None,
        };
        proof {
            assert(steps@.take(i + 1).drop_last() =~= earlier);
            assert(steps@.take(i + 1).last() == steps@[i as int]);
            assert(metadata@ == steps@[i as int]@);
        }
        if let Some(ms) = time {
            if let Some(inner) = message_field(metadata, 9) {
                if let Some(key) = message_field(inner, 11) {
                    if key.len() > 0 {
                        StepTimestamp::record(
                            &mut timestamps.by_response_id,
                            vstd::slice::slice_to_vec(key),
                            ms,
                        );
                    }
                }
            }
            if let Some(inner) = message_field(metadata, 20) {
                if let Some(idx) = varint_field(inner, 3) {
                    if idx <= i64::MAX as u64 {
                        StepTimestamp::record(&mut timestamps.by_gen_idx, idx as i64, ms);
                    }
                }
            }
        }
        i = i + 1;
    }
    proof {
        assert(steps@.take(i as int) =~= steps@);
        assert(timestamps.times().by_response_id =~= turn_times(steps@).by_response_id);
        assert(timestamps.times().by_gen_idx =~= turn_times(steps@).by_gen_idx);
    }
    timestamps
}

// ---------------------------------------------------------------------------
// Generations
// ---------------------------------------------------------------------------
/// One `gen_metadata` row, with what the host knows of its model.
pub struct GenerationRow {
    pub idx: Option<i64>,
    pub data: Vec<u8>,
    /// The name that the price list has for the model that `response_model` gives, if any.
    pub alias: Option<String>,
    /// The provider that is inferred from the model's name in the price list, if any.
    pub provider: Option<String>,
}

/// A row with texts as characters.
pub ghost struct RowModel {
    pub idx: Option<i64>,
    pub data: Seq<u8>,
    pub alias: Option<Seq<char>>,
    pub provider: Option<Seq<char>>,
}

impl View for GenerationRow {
    type V = RowModel;

    open spec fn view(&self) -> RowModel {
        RowModel {
            idx: self.idx,
            data: self.data@,
            alias: text_of(self.alias),
            provider: text_of(self.provider),
        }
    }
}

/// The chat model message and, in it, the usage message of a generation.
pub open spec fn generation_parts(blob: Seq<u8>) -> Option<(Seq<u8>, Seq<u8>)> {
    match message_in(blob, 1) {
        Some(chat_model) => match message_in(chat_model, 4) {
            Some(usage) => Some((chat_model, usage)),
            None => None,
        },
        None => None,
    }
}

/// A token count of a usage message: zero where it is missing, clamped to `i64`.
pub open spec fn count_in(usage: Seq<u8>, field: u64) -> i64 {
    match varint_in(usage, field) {
        Some(count) => clamp_i64(count as int),
        None => 0,
    }
}

/// The tokens of a usage message. The fixed system prompt counts as input.
pub open spec fn usage_tokens(usage: Seq<u8>) -> TokenBreakdown {
    TokenBreakdown {
        input: clamp_i64(count_in(usage, 1) + count_in(usage, 2)),
        output: count_in(usage, 9),
        cache_read: count_in(usage, 5),
        cache_write: 0,
        reasoning: count_in(usage, 10),
        cache_write_1h: 0,
    }
}

/// A text that is not blank.
pub open spec fn non_blank(text: Option<Seq<char>>) -> Option<Seq<char>> {
    match text {
        Some(text) if trimmed(text).len() > 0 => Some(text),
        _ => None,
    }
}

/// The key that keeps a response from being counted twice.
pub open spec fn response_key(usage: Seq<u8>) -> Option<Seq<char>> {
    non_blank(string_in(usage, 11))
}

/// The model that answered.
pub open spec fn raw_model(chat_model: Seq<u8>) -> Seq<char> {
    match non_blank(string_in(chat_model, 19)) {
        Some(model) => model,
        None => "unknown"@,
    }
}

/// The time that a generation itself carries.
pub open spec fn native_time(chat_model: Seq<u8>) -> Option<i64> {
    match message_in(chat_model, 9) {
        Some(inner) => match message_in(inner, 4) {
            Some(ts) => positive(timestamp_ms(ts)),
            None => None,
        },
        None => None,
    }
}

/// The time of a generation: its own, else that of the turn with its response id, else that of
/// the turn with its index, else that of the session.
pub open spec fn generation_time(
    chat_model: Seq<u8>,
    usage: Seq<u8>,
    idx: Option<i64>,
    times: TurnTimes,
    session_time: i64,
) -> i64 {
    let by_response_id = match message_in(usage, 11) {
        Some(key) => (times.by_response_id)(key),
        None => None,
    };
    let by_gen_idx = match idx {
        Some(idx) => (times.by_gen_idx)(idx),
        None => None,
    };
    match native_time(chat_model) {
        Some(ms) => ms,
        None => match by_response_id {
            Some(ms) => ms,
            None => match by_gen_idx {
                Some(ms) => ms,
                None => session_time,
            },
        },
    }
}

/// Whether a row counts tokens.
pub open spec fn counts(blob: Seq<u8>) -> bool {
    match generation_parts(blob) {
        Some((_, usage)) => usage_tokens(usage) != TokenBreakdown::zero(),
        None => false,
    }
}

/// The key of a row that counts tokens.
pub open spec fn counted_key(blob: Seq<u8>) -> Option<Seq<char>> {
    match generation_parts(blob) {
        Some((_, usage)) if counts(blob) => response_key(usage),
        _ => None,
    }
}

/// The message of a row that counts tokens.
pub open spec fn row_message(
    row: RowModel,
    session_id: Seq<char>,
    session_time: i64,
    times: TurnTimes,
) -> MessageModel {
    let (chat_model, usage) = generation_parts(row.data)->0;
    let model_id = match row.alias {
        Some(alias) => alias,
        None => raw_model(chat_model),
    };
    let provider_id = match row.provider {
        Some(provider) => provider,
        None => "antigravity"@,
    };
    MessageModel {
        dedup_key: response_key(usage),
        ..MessageModel::fresh(
            "antigravity-cli"@,
            model_id,
            provider_id,
            session_id,
            generation_time(chat_model, usage, row.idx, times, session_time),
            usage_tokens(usage),
            seq![0u64],
        )
    }
}

/// The keys that were seen, once a row has been read.
pub open spec fn seen_after(seen: Set<Seq<char>>, blob: Seq<u8>) -> Set<Seq<char>> {
    match counted_key(blob) {
        Some(key) => seen.insert(key),
        None => seen,
    }
}

/// Whether a row gives a message: it counts tokens, and its key was not seen before.
pub open spec fn emits(seen: Set<Seq<char>>, blob: Seq<u8>) -> bool {
    counts(blob) && match counted_key(blob) {
        Some(key) => !seen.contains(key),
        None => true,
    }
}

/// The response ids that were read so far.
pub struct SeenResponses {
    ids: StringHashSet,
}

impl View for SeenResponses {
    type V = Set<Seq<char>>;

    closed spec fn view(&self) -> Set<Seq<char>> {
        self.ids@
    }
}

impl SeenResponses {
    pub fn new() -> (seen: Self)
        ensures
            seen@ == Set::<Seq<char>>::empty(),
    {
        SeenResponses { ids: StringHashSet::new() }
    }

    /// Adds an id and tells whether it is new.
    pub fn insert(&mut self, id: String) -> (new: bool)
        ensures
            final(self)@ == old(self)@.insert(id@),
            new == !old(self)@.contains(id@),
    {
        self.ids.insert(id)
    }
}

/// The model that a generation names, for the host to look up.
pub fn response_model(data: &[u8]) -> (model: Option<String>)
    ensures
        text_of(model) == (match generation_parts(data@) {
            Some((chat_model, _)) => Some(raw_model(chat_model)),
            None => None,
        }),
{
    match message_field(data, 1) {
        Some(chat_model) => match message_field(chat_model, 4) {
            Some(_) => Some(raw_response_model(chat_model)),
            None => None,
        },
        None => None,
    }
}

fn raw_response_model(chat_model: &[u8]) -> (model: String)
    ensures
        model@ == raw_model(chat_model@),
{
    match string_field(chat_model, 19) {
        Some(text) => if is_blank(text) {
            "unknown".to_owned()
        } else {
            text.to_owned()
        },
        None => "unknown".to_owned(),
    }
}

fn token_count(usage: &[u8], field: u64) -> (count: i64)
    ensures
        count == count_in(usage@, field),
{
    match varint_field(usage, field) {
        Some(count) => if count <= i64::MAX as u64 {
            count as i64
        } else {
            i64::MAX
        },
        None => 0,
    }
}

fn native_timestamp(chat_model: &[u8]) -> (ms: Option<i64>)
    ensures
        ms == native_time(chat_model@),
{
    match message_field(chat_model, 9) {
        Some(inner) => match message_field(inner, 4) {
            Some(ts) => positive_ms(proto_timestamp_ms(ts)),
            None => None,
        },
        None => None,
    }
}

fn resolve_timestamp(
    chat_model: &[u8],
    usage: &[u8],
    idx: Option<i64>,
    step_timestamps: &StepTimestamps,
    session_timestamp: i64,
) -> (ms: i64)
    requires
        step_timestamps.wf(),
    ensures
        ms == generation_time(
            chat_model@,
            usage@,
            idx,
            step_timestamps.times(),
            session_timestamp,
        ),
{
    if let Some(ms) = native_timestamp(chat_model) {
        return ms;
    }
    if let Some(key) = message_field(usage, 11) {
        if let Some(ms) = step_timestamps.response_time(key) {
            return ms;
        }
    }
    if let Some(idx) = idx {
        if let Some(ms) = step_timestamps.gen_idx_time(idx) {
            return ms;
        }
    }
    session_timestamp
}

/// Reads one generation. It gives no message where the row is malformed, where it counts no
/// tokens, and where its response was read before.
pub fn parse_gen_metadata(
    row: &GenerationRow,
    session_id: &str,
    session_timestamp: i64,
    step_timestamps: &StepTimestamps,
    seen_response_ids: &mut SeenResponses,
) -> (message: Option<UnifiedMessage>)
    requires
        step_timestamps.wf(),
    ensures
        final(seen_response_ids)@ == seen_after(old(seen_response_ids)@, row@.data),
        match message {
            Some(message) => {
                &&& emits(old(seen_response_ids)@, row@.data)
                &&& message@ == row_message(
                    row@,
                    session_id@,
                    session_timestamp,
                    step_timestamps.times(),
                )
            },
            None => !emits(old(seen_response_ids)@, row@.data),
        },
        message matches Some(message) ==> row.alias is None ==> exists|chat_model: Seq<u8>|
            #![trigger string_in(chat_model, 19)]
            message_in(row.data@, 1) == Some(chat_model) && (match string_in(chat_model, 19) {
                Some(text) if says_something(text) => message.model_id@ == text,
                _ => message.model_id@ == "unknown"@,
            }),
{
    let chat_model = match message_field(row.data.as_slice(), 1) {
        Some(chat_model) => chat_model,
        None => return None,
    };
    let usage = match message_field(chat_model, 4) {
        Some(usage) => usage,
        None => return None,
    };
    let timestamp: i64 = resolve_timestamp(
        chat_model,
        usage,
        row.idx,
        step_timestamps,
        session_timestamp,
    );
    let input: i64 = saturating_sum(token_count(usage, 1), token_count(usage, 2));
    let cache_read: i64 = token_count(usage, 5);
    let output: i64 = token_count(usage, 9);
    let reasoning: i64 = token_count(usage, 10);
    if input == 0 && output == 0 && cache_read == 0 && reasoning == 0 {
        return None;
    }
    let dedup_key: Option<String> = match string_field(usage, 11) {
        Some(text) => if is_blank(text) {
            None
        } else {
            Some(text.to_owned())
        },
        None => None,
    };
    if let Some(key) = &dedup_key {
        if !seen_response_ids.insert(key.clone()) {
            return None;
        }
    }
    let model_id = match &row.alias {
        Some(alias) => alias.clone(),
        None => raw_response_model(chat_model),
    };
    let provider_id = match &row.provider {
        Some(provider) => provider.clone(),
        None => "antigravity".to_owned(),
    };
    let mut cost_terms: Vec<u64> = Vec::new();
    cost_terms.push(0);
    let mut message = UnifiedMessage::new(
        "antigravity-cli".to_owned(),
        model_id,
        provider_id,
        session_id.to_owned(),
        timestamp,
        TokenBreakdown { input, output, cache_read, cache_write: 0, reasoning, cache_write_1h: 0 },
        cost_terms,
    );
    message.dedup_key = dedup_key;
    proof {
        assert(cost_terms@ =~= seq![0u64]);
        lemma_model_of_a_generation(
            *row,
            chat_model@,
            session_id@,
            session_timestamp,
            step_timestamps.times(),
            message,
        );
        assert(message_in(row.data@, 1) == Some(chat_model@));
    }
    Some(message)
}

// ---------------------------------------------------------------------------
// Conversations
// ---------------------------------------------------------------------------
/// What a conversation database holds, with what the host knows of its workspace.
pub struct ConversationFile {
    /// The file's name without its extension, where it is UTF-8.
    pub stem: Option<String>,
    /// The data of the trajectory metadata row.
    pub trajectory: Option<Vec<u8>>,
    /// When the file was last modified, in milliseconds since the epoch.
    pub modified_ms: i64,
    /// The key of the workspace at the path that `workspace_path` gives.
    pub workspace_key: Option<String>,
    /// The label of the workspace with that key.
    pub workspace_label: Option<String>,
    /// The rows of `gen_metadata`, in the order of their index.
    pub generations: Vec<GenerationRow>,
    /// The metadata of the rows of `steps` that are model turns.
    pub steps: Vec<Vec<u8>>,
}

/// What the messages of a conversation share.
pub ghost struct SessionModel {
    pub session_id: Seq<char>,
    pub time: i64,
    pub workspace_key: Option<Seq<char>>,
    pub workspace_label: Option<Seq<char>>,
    pub times: TurnTimes,
}

/// The time of a session: when it was created, else when its file was last modified.
pub open spec fn session_time(trajectory: Option<Vec<u8>>, modified_ms: i64) -> i64 {
    match trajectory {
        Some(blob) => match positive(created_ms(blob@)) {
            Some(ms) => ms,
            None => modified_ms,
        },
        None => modified_ms,
    }
}

/// Whether the trajectory metadata names a workspace.
pub open spec fn has_workspace(trajectory: Option<Vec<u8>>) -> bool {
    match trajectory {
        Some(blob) => workspace_in(blob@) is Some,
        None => false,
    }
}

impl ConversationFile {
    /// What the messages of this conversation share.
    pub open spec fn session(self) -> SessionModel {
        let placed = has_workspace(self.trajectory) && self.workspace_key is Some;
        SessionModel {
            session_id: match self.stem {
                Some(stem) => stem@,
                None => "unknown"@,
            },
            time: session_time(self.trajectory, self.modified_ms),
            workspace_key: if placed {
                text_of(self.workspace_key)
            } else {
                None
            },
            workspace_label: if placed {
                text_of(self.workspace_label)
            } else {
                None
            },
            times: turn_times(self.steps@),
        }
    }
}

/// The keys that the rows have.
pub open spec fn seen_keys(rows: Seq<GenerationRow>) -> Set<Seq<char>>
    decreases rows.len(),
{
    if rows.len() == 0 {
        Set::empty()
    } else {
        seen_after(seen_keys(rows.drop_last()), rows.last()@.data)
    }
}

/// The message of a row in its session.
pub open spec fn session_message(row: RowModel, session: SessionModel) -> MessageModel {
    MessageModel {
        workspace_key: session.workspace_key,
        workspace_label: session.workspace_label,
        ..row_message(row, session.session_id, session.time, session.times)
    }
}

/// The messages of the rows, in their order: one for each row that counts tokens and whose key
/// no earlier such row has.
pub open spec fn session_messages(rows: Seq<GenerationRow>, session: SessionModel) -> Seq<
    MessageModel,
>
    decreases rows.len(),
{
    if rows.len() == 0 {
        Seq::empty()
    } else {
        let earlier = session_messages(rows.drop_last(), session);
        if emits(seen_keys(rows.drop_last()), rows.last()@.data) {
            earlier.push(session_message(rows.last()@, session))
        } else {
            earlier
        }
    }
}

fn read_trajectory_meta(file: &ConversationFile) -> (meta: (i64, Option<String>, Option<String>))
    ensures
        meta.0 == file.session().time,
        text_of(meta.1) == file.session().workspace_key,
        text_of(meta.2) == file.session().workspace_label,
{
    let mut timestamp: i64 = file.modified_ms;
    let mut placed = false;
    if let Some(blob) = &file.trajectory {
        if let Some(ms) = positive_ms(session_created_ms(blob.as_slice())) {
            timestamp = ms;
        }
        if workspace_path(blob.as_slice()).is_some() && file.workspace_key.is_some() {
            placed = true;
        }
    }
    if placed {
        (timestamp, copy_text(&file.workspace_key), copy_text(&file.workspace_label))
    } else {
        (timestamp, None, None)
    }
}

/// Reads a conversation.
pub fn parse_antigravity_cli_file(file: &ConversationFile) -> (messages: Vec<UnifiedMessage>)
    ensures
        models_of(messages@) == session_messages(file.generations@, file.session()),
{
    let session_id = match &file.stem {
        Some(stem) => stem.clone(),
        None => "unknown".to_owned(),
    };
    let (timestamp, workspace_key, workspace_label) = read_trajectory_meta(file);
    let step_timestamps = read_step_timestamps(&file.steps);
    let mut messages: Vec<UnifiedMessage> = Vec::new();
    let mut seen_response_ids = SeenResponses::new();
    let ghost session = file.session();
    let ghost rows = file.generations@;
    let mut i: usize = 0;
    assert(models_of(messages@) =~= session_messages(rows.take(0), session));
    while i < file.generations.len()
        invariant
            i <= file.generations@.len(),
            rows == file.generations@,
            session == file.session(),
            step_timestamps.wf(),
            step_timestamps.times() == session.times,
            session_id@ == session.session_id,
            timestamp == session.time,
            text_of(workspace_key) == session.workspace_key,
            text_of(workspace_label) == session.workspace_label,
            seen_response_ids@ == seen_keys(rows.take(i as int)),
            models_of(messages@) == session_messages(rows.take(i as int), session),
        decreases file.generations@.len() - i,
    {
        proof {
            assert(rows.take(i + 1).drop_last() =~= rows.take(i as int));
            assert(rows.take(i + 1).last() == rows[i as int]);
        }
        let ghost before = messages@;
        if let Some(mut message) = parse_gen_metadata(
            &file.generations[i],
            session_id.as_str(),
            timestamp,
            &step_timestamps,
            &mut seen_response_ids,
        ) {
            message.workspace_key = copy_text(&workspace_key);
            message.workspace_label = copy_text(&workspace_label);
            messages.push(message);
            proof {
                assert(models_of(messages@) =~= models_of(before).push(message@));
            }
        }
        i = i + 1;
    }
    assert(rows.take(i as int) =~= rows);
    messages
}

/// Counts are clamped, never wrapped: no token count is negative.
pub proof fn lemma_counts_are_not_negative(usage: Seq<u8>)
    ensures
        usage_tokens(usage).non_negative(),
{
}

/// A generation of a session that started after the epoch was after the epoch.
pub proof fn lemma_generations_are_after_the_epoch(
    chat_model: Seq<u8>,
    usage: Seq<u8>,
    idx: Option<i64>,
    steps: Seq<Vec<u8>>,
    session_time: i64,
)
    requires
        session_time > 0,
    ensures
        generation_time(chat_model, usage, idx, turn_times(steps), session_time) > 0,
{
}

proof fn lemma_message_keys_seen(rows: Seq<GenerationRow>, session: SessionModel, at: int)
    requires
        0 <= at < session_messages(rows, session).len(),
        session_messages(rows, session)[at].dedup_key is Some,
    ensures
        seen_keys(rows).contains(session_messages(rows, session)[at].dedup_key->0),
    decreases rows.len(),
{
    let earlier = session_messages(rows.drop_last(), session);
    if at < earlier.len() {
        lemma_message_keys_seen(rows.drop_last(), session, at);
    }
}

/// A response is counted once: no two messages of a conversation have the same key.
pub proof fn lemma_responses_counted_once(
    rows: Seq<GenerationRow>,
    session: SessionModel,
    i: int,
    j: int,
)
    requires
        0 <= i < j < session_messages(rows, session).len(),
        session_messages(rows, session)[i].dedup_key is Some,
    ensures
        session_messages(rows, session)[i].dedup_key != session_messages(rows, session)[j].dedup_key,
    decreases rows.len(),
{
    let earlier = session_messages(rows.drop_last(), session);
    if j < earlier.len() {
        lemma_responses_counted_once(rows.drop_last(), session, i, j);
    } else {
        lemma_message_keys_seen(rows.drop_last(), session, i);
    }
}

/// Every response that counts tokens is counted: its key is the key of some message.
#[verifier::rlimit(40)]
pub proof fn lemma_responses_are_counted(
    rows: Seq<GenerationRow>,
    session: SessionModel,
    row: int,
)
    requires
        0 <= row < rows.len(),
        counted_key(rows[row]@.data) is Some,
    ensures
        exists|at: int|
            0 <= at < session_messages(rows, session).len() && (#[trigger] session_messages(
                rows,
                session,
            )[at]).dedup_key == counted_key(rows[row]@.data),
    decreases rows.len(),
{
    let before = rows.drop_last();
    let earlier = session_messages(before, session);
    let all = session_messages(rows, session);
    let blob = rows[row]@.data;
    if row < rows.len() - 1 {
        assert(before[row] == rows[row]);
        lemma_responses_are_counted(before, session, row);
        let at = choose|at: int|
            0 <= at < earlier.len() && (#[trigger] earlier[at]).dedup_key == counted_key(blob);
        assert(all[at] == earlier[at]);
    } else if emits(seen_keys(before), blob) {
        assert(all[all.len() - 1] == session_message(rows[row]@, session));
    } else {
        lemma_seen_key_has_row(before, counted_key(blob)->0);
        let other = choose|other: int|
            0 <= other < before.len() && counted_key(#[trigger] before[other]@.data) == counted_key(
                blob,
            );
        lemma_responses_are_counted(before, session, other);
        let at = choose|at: int|
            0 <= at < earlier.len() && (#[trigger] earlier[at]).dedup_key == counted_key(blob);
        assert(all[at] == earlier[at]);
    }
}

proof fn lemma_seen_key_has_row(rows: Seq<GenerationRow>, key: Seq<char>)
    requires
        seen_keys(rows).contains(key),
    ensures
        exists|row: int|
            0 <= row < rows.len() && counted_key(#[trigger] rows[row]@.data) == Some(key),
    decreases rows.len(),
{
    if counted_key(rows.last()@.data) == Some(key) {
        assert(counted_key(rows[rows.len() - 1]@.data) == Some(key));
    } else {
        lemma_seen_key_has_row(rows.drop_last(), key);
        let row = choose|row: int|
            0 <= row < rows.drop_last().len() && counted_key(
                #[trigger] rows.drop_last()[row]@.data,
            ) == Some(key);
        assert(rows[row] == rows.drop_last()[row]);
    }
}

// ---------------------------------------------------------------------------
// What is read of a generation
// ---------------------------------------------------------------------------
/// Whether a text has a character that is not white space.
pub open spec fn says_something(text: Seq<char>) -> bool {
    exists|i: int| 0 <= i < text.len() && !is_white_space(#[trigger] text[i])
}

/// The number of a varint field, zero where there is none.
pub open spec fn number_in(buf: Seq<u8>, field: u64) -> int {
    match varint_in(buf, field) {
        Some(number) => number as int,
        None => 0,
    }
}

/// A number as far as `i64` holds it.
pub open spec fn at_most_i64(number: int) -> int {
    if number <= i64::MAX {
        number
    } else {
        i64::MAX as int
    }
}

/// The model of a message is the name that the price list has for it. Without one it is the text
/// of field 19 of the chat model, and `unknown` stands only where that field is missing, blank
/// or no text.
pub proof fn lemma_model_of_a_generation(
    row: GenerationRow,
    chat_model: Seq<u8>,
    session_id: Seq<char>,
    session_time: i64,
    times: TurnTimes,
    message: UnifiedMessage,
)
    requires
        message_in(row.data@, 1) == Some(chat_model),
        message_in(chat_model, 4) is Some,
        message@ == row_message(row@, session_id, session_time, times),
    ensures
        row.alias matches Some(alias) ==> message.model_id@ == alias@,
        row.alias is None ==> match string_in(chat_model, 19) {
            Some(text) => if says_something(text) {
                message.model_id@ == text
            } else {
                message.model_id@ == "unknown"@
            },
            None => message.model_id@ == "unknown"@,
        },
{
    if let Some(text) = string_in(chat_model, 19) {
        lemma_blank(text);
    }
}

/// The model that the host looks up is the one that the message names where the price list has
/// no other name for it.
pub proof fn lemma_looked_up_model_is_the_message_model(
    row: GenerationRow,
    model: Option<String>,
    session_id: Seq<char>,
    session_time: i64,
    times: TurnTimes,
    message: UnifiedMessage,
)
    requires
        text_of(model) == (match generation_parts(row.data@) {
            Some((chat_model, _)) => Some(raw_model(chat_model)),
            None => None,
        }),
        counts(row.data@),
        message@ == row_message(row@, session_id, session_time, times),
    ensures
        model is Some,
        row.alias is None ==> message.model_id@ == model->0@,
        forall|chat_model: Seq<u8>, text: Seq<char>|
            message_in(row.data@, 1) == Some(chat_model) && #[trigger] string_in(chat_model, 19)
                == Some(text) && #[trigger] says_something(text) ==> model->0@ == text,
{
    assert forall|chat_model: Seq<u8>, text: Seq<char>|
        message_in(row.data@, 1) == Some(chat_model) && #[trigger] string_in(chat_model, 19)
            == Some(text) && #[trigger] says_something(text) implies model->0@ == text by {
        lemma_blank(text);
    }
}

/// The tokens of a message are the numbers of the usage fields, each kind by its own: the
/// system prompt and the new input together, then output, cache and thinking. What 64 bits
/// cannot hold is the largest number that they can.
pub proof fn lemma_tokens_of_a_generation(
    row: GenerationRow,
    chat_model: Seq<u8>,
    usage: Seq<u8>,
    session_id: Seq<char>,
    session_time: i64,
    times: TurnTimes,
    message: UnifiedMessage,
)
    requires
        message_in(row.data@, 1) == Some(chat_model),
        message_in(chat_model, 4) == Some(usage),
        message@ == row_message(row@, session_id, session_time, times),
    ensures
        message.tokens.input == at_most_i64(number_in(usage, 1) + number_in(usage, 2)),
        message.tokens.cache_read == at_most_i64(number_in(usage, 5)),
        message.tokens.output == at_most_i64(number_in(usage, 9)),
        message.tokens.reasoning == at_most_i64(number_in(usage, 10)),
        message.tokens.cache_write == 0,
        message.tokens.cache_write_1h == 0,
{
}

/// A row counts where its usage has a number above zero in one of the five fields, and only
/// such a row has a key: its response id, where that says something.
pub proof fn lemma_rows_that_count(data: Seq<u8>)
    ensures
        counts(data) <==> exists|chat_model: Seq<u8>, usage: Seq<u8>|
            message_in(data, 1) == Some(chat_model) && #[trigger] message_in(chat_model, 4) == Some(
                usage,
            ) && (#[trigger] number_in(usage, 1) > 0 || number_in(usage, 2) > 0 || number_in(
                usage,
                5,
            ) > 0 || number_in(usage, 9) > 0 || number_in(usage, 10) > 0),
        counted_key(data) is Some ==> counts(data),
        forall|chat_model: Seq<u8>, usage: Seq<u8>|
            counts(data) && message_in(data, 1) == Some(chat_model) && #[trigger] message_in(
                chat_model,
                4,
            ) == Some(usage) ==> counted_key(data) == (match #[trigger] string_in(usage, 11) {
                Some(text) if says_something(text) => Some(text),
                _ => None,
            }),
{
    assert forall|chat_model: Seq<u8>, usage: Seq<u8>|
        counts(data) && message_in(data, 1) == Some(chat_model) && #[trigger] message_in(
            chat_model,
            4,
        ) == Some(usage) implies counted_key(data) == (match #[trigger] string_in(usage, 11) {
            Some(text) if says_something(text) => Some(text),
            _ => None,
        }) by {
        if let Some(text) = string_in(usage, 11) {
            lemma_blank(text);
        }
    }
    if counts(data) {
        let (chat_model, usage) = generation_parts(data)->0;
        assert(message_in(chat_model, 4) == Some(usage));
        assert(number_in(usage, 1) > 0 || number_in(usage, 2) > 0 || number_in(usage, 5) > 0
            || number_in(usage, 9) > 0 || number_in(usage, 10) > 0);
    }
}

/// A message names its client, its session and its provider, which is Antigravity where none is
/// inferred. It has no cost of its own, and its response id keeps it from being counted twice.
pub proof fn lemma_names_of_a_generation(
    row: GenerationRow,
    session_id: Seq<char>,
    session_time: i64,
    times: TurnTimes,
    message: UnifiedMessage,
)
    requires
        counts(row.data@),
        message@ == row_message(row@, session_id, session_time, times),
    ensures
        message.client@ == "antigravity-cli"@,
        message.session_id@ == session_id,
        row.provider matches Some(provider) ==> message.provider_id@ == provider@,
        row.provider is None ==> message.provider_id@ == "antigravity"@,
        message.cost_terms@ == seq![0u64],
        message.cost_source == CostSource::Unknown,
        message.message_count == 1,
        counted_key(row.data@) matches Some(key) ==> message.dedup_key is Some
            && message.dedup_key->0@ == key,
        counted_key(row.data@) is None ==> message.dedup_key is None,
        message.agent is None,
        message.duration_ms is None,
        !message.is_turn_start,
{
}

// ---------------------------------------------------------------------------
// Times
// ---------------------------------------------------------------------------
/// A timestamp is rounded down to whole milliseconds. Its seconds are a two's complement number,
/// and its nanoseconds less than a second; there is no time beyond `i64`.
pub proof fn lemma_timestamps(ts: Seq<u8>)
    ensures
        varint_in(ts, 1) is None ==> timestamp_ms(ts) is None,
        number_in(ts, 2) >= 1_000_000_000 ==> timestamp_ms(ts) is None,
        varint_in(ts, 1) is Some && number_in(ts, 2) < 1_000_000_000 ==> {
            let raw = varint_in(ts, 1)->0;
            let seconds = if raw < 0x8000_0000_0000_0000 {
                raw as int
            } else {
                raw - 0x1_0000_0000_0000_0000
            };
            let exact = seconds * 1_000_000_000 + number_in(ts, 2);
            match timestamp_ms(ts) {
                Some(ms) => ms * 1_000_000 <= exact < (ms + 1) * 1_000_000,
                None => exact >= (i64::MAX + 1) * 1_000_000 || seconds * 1_000 < i64::MIN,
            }
        },
{
}

/// The time that a generation carries itself, where it is after the epoch.
pub open spec fn own_time(chat_model: Seq<u8>, ms: i64) -> bool {
    ms > 0 && exists|inner: Seq<u8>, ts: Seq<u8>|
        message_in(chat_model, 9) == Some(inner) && #[trigger] message_in(inner, 4) == Some(ts)
            && #[trigger] timestamp_ms(ts) == Some(ms)
}

/// A generation is dated by the first of these that there is: its own time, that of the turn
/// with its response id, that of the turn with its index, that of the session.
pub proof fn lemma_time_of_a_generation(
    row: GenerationRow,
    chat_model: Seq<u8>,
    usage: Seq<u8>,
    session_id: Seq<char>,
    session_time: i64,
    times: TurnTimes,
    message: UnifiedMessage,
)
    requires
        message_in(row.data@, 1) == Some(chat_model),
        message_in(chat_model, 4) == Some(usage),
        message@ == row_message(row@, session_id, session_time, times),
    ensures
        forall|ms: i64| #[trigger] own_time(chat_model, ms) ==> message.timestamp == ms,
        (forall|ms: i64| !#[trigger] own_time(chat_model, ms)) ==> {
            let by_id = message_in(usage, 11) is Some && (times.by_response_id)(
                message_in(usage, 11)->0,
            ) is Some;
            let by_index = row.idx is Some && (times.by_gen_idx)(row.idx->0) is Some;
            &&& by_id ==> Some(message.timestamp) == (times.by_response_id)(
                message_in(usage, 11)->0,
            )
            &&& !by_id && by_index ==> Some(message.timestamp) == (times.by_gen_idx)(row.idx->0)
            &&& !by_id && !by_index ==> message.timestamp == session_time
        },
{
    if let Some(ms) = native_time(chat_model) {
        let inner = message_in(chat_model, 9)->0;
        let ts = message_in(inner, 4)->0;
        assert(timestamp_ms(ts) == Some(ms));
        assert(own_time(chat_model, ms));
    }
}

/// Whether a model turn is dated, and when: field 1 of its metadata, after the epoch.
pub open spec fn turn_at(metadata: Seq<u8>, ms: i64) -> bool {
    ms > 0 && message_in(metadata, 1) is Some && timestamp_ms(message_in(metadata, 1)->0) == Some(ms)
}

/// Whether a dated model turn has a response id: field 11 of field 9.
pub open spec fn turn_has_id(metadata: Seq<u8>, id: Seq<u8>, ms: i64) -> bool {
    &&& turn_at(metadata, ms)
    &&& id.len() > 0
    &&& message_in(metadata, 9) matches Some(inner) && message_in(inner, 11) == Some(id)
}

/// Whether a dated model turn has a generation index: field 3 of field 20.
pub open spec fn turn_has_index(metadata: Seq<u8>, index: i64, ms: i64) -> bool {
    &&& turn_at(metadata, ms)
    &&& message_in(metadata, 20) matches Some(inner) && varint_in(inner, 3) matches Some(number)
        && number == index
}

/// The items of a list of optional items.
spec fn present(marks: Seq<Option<i64>>) -> Seq<i64>
    decreases marks.len(),
{
    if marks.len() == 0 {
        Seq::empty()
    } else {
        match marks.last() {
            Some(ms) => present(marks.drop_last()).push(ms),
            None => present(marks.drop_last()),
        }
    }
}

/// Whether a list of optional items has one item, at a position.
spec fn sole(marks: Seq<Option<i64>>, at: int, ms: i64) -> bool {
    &&& 0 <= at < marks.len()
    &&& marks[at] == Some(ms)
    &&& forall|j: int| 0 <= j < marks.len() && j != at ==> (#[trigger] marks[j]) is None
}

proof fn lemma_none_present(marks: Seq<Option<i64>>)
    ensures
        present(marks).len() == 0 <==> forall|i: int|
            0 <= i < marks.len() ==> (#[trigger] marks[i]) is None,
    decreases marks.len(),
{
    if marks.len() > 0 {
        let before = marks.drop_last();
        lemma_none_present(before);
        assert(marks[marks.len() - 1] == marks.last());
        assert forall|i: int| 0 <= i < before.len() implies before[i] == marks[i] by {}
    }
}

proof fn lemma_sole_is_present(marks: Seq<Option<i64>>, at: int, ms: i64)
    requires
        sole(marks, at, ms),
    ensures
        present(marks) == seq![ms],
    decreases marks.len(),
{
    let before = marks.drop_last();
    if at == marks.len() - 1 {
        assert forall|j: int| 0 <= j < before.len() implies (#[trigger] before[j]) is None by {
            assert(marks[j] is None);
        }
        lemma_none_present(before);
        assert(present(marks) =~= seq![ms]);
    } else {
        assert(marks[marks.len() - 1] is None);
        assert forall|j: int| 0 <= j < before.len() && j != at implies (
        #[trigger] before[j]) is None by {
            assert(marks[j] is None);
        }
        lemma_sole_is_present(before, at, ms);
    }
}

proof fn lemma_present_is_sole(marks: Seq<Option<i64>>, ms: i64) -> (at: int)
    requires
        present(marks).len() == 1,
        present(marks)[0] == ms,
    ensures
        sole(marks, at, ms),
    decreases marks.len(),
{
    let before = marks.drop_last();
    let last = marks.len() - 1;
    assert forall|i: int| 0 <= i < before.len() implies before[i] == marks[i] by {}
    assert(marks[last] == marks.last());
    if marks.last() is None {
        let at = lemma_present_is_sole(before, ms);
        assert forall|j: int| 0 <= j < marks.len() && j != at implies (
        #[trigger] marks[j]) is None by {
            if j < last {
                assert(before[j] is None);
            }
        }
        at
    } else {
        lemma_none_present(before);
        assert forall|j: int| 0 <= j < marks.len() && j != last implies (
        #[trigger] marks[j]) is None by {
            assert(before[j] is None);
        }
        last
    }
}

spec fn id_marks(steps: Seq<Vec<u8>>, key: Seq<u8>) -> Seq<Option<i64>> {
    steps.map_values(
        |step: Vec<u8>|
            if step_response_id(step@) == Some(key) {
                step_time(step@)
            } else {
                None
            },
    )
}

spec fn index_marks(steps: Seq<Vec<u8>>, key: i64) -> Seq<Option<i64>> {
    steps.map_values(
        |step: Vec<u8>|
            if step_gen_idx(step@) == Some(key) {
                step_time(step@)
            } else {
                None
            },
    )
}

proof fn lemma_marks(steps: Seq<Vec<u8>>, id: Seq<u8>, index: i64)
    ensures
        response_times(steps, id) == present(id_marks(steps, id)),
        gen_idx_times(steps, index) == present(index_marks(steps, index)),
    decreases steps.len(),
{
    if steps.len() > 0 {
        lemma_marks(steps.drop_last(), id, index);
        assert(id_marks(steps, id).drop_last() =~= id_marks(steps.drop_last(), id));
        assert(index_marks(steps, index).drop_last() =~= index_marks(steps.drop_last(), index));
    }
}

/// Whether one dated model turn alone has a response id, and its time.
pub open spec fn only_turn_with_id(steps: Seq<Vec<u8>>, id: Seq<u8>, at: int, ms: i64) -> bool {
    &&& 0 <= at < steps.len()
    &&& turn_has_id(steps[at]@, id, ms)
    &&& forall|j: int, other: i64|
        0 <= j < steps.len() && j != at ==> !#[trigger] turn_has_id(steps[j]@, id, other)
}

/// A response id dates a generation where exactly one dated model turn has it, and then by that
/// turn's time.
pub proof fn lemma_ids_that_date(steps: Seq<Vec<u8>>, id: Seq<u8>, ms: i64)
    ensures
        (turn_times(steps).by_response_id)(id) == Some(ms) <==> exists|at: int|
            #[trigger] only_turn_with_id(steps, id, at, ms),
{
    let marks = id_marks(steps, id);
    lemma_marks(steps, id, 0);
    if (turn_times(steps).by_response_id)(id) == Some(ms) {
        let at = lemma_present_is_sole(marks, ms);
        assert forall|j: int, other: i64| 0 <= j < steps.len() && j != at implies !#[trigger]
            turn_has_id(steps[j]@, id, other) by {
            assert(marks[j] is None);
        }
        assert(marks[at] == Some(ms));
        assert(only_turn_with_id(steps, id, at, ms));
    }
    if exists|at: int| #[trigger] only_turn_with_id(steps, id, at, ms) {
        let at = choose|at: int| #[trigger] only_turn_with_id(steps, id, at, ms);
        assert forall|j: int| 0 <= j < marks.len() && j != at implies (
        #[trigger] marks[j]) is None by {
            if let Some(other) = marks[j] {
                assert(turn_has_id(steps[j]@, id, other));
            }
        }
        lemma_sole_is_present(marks, at, ms);
    }
}

/// Whether one dated model turn alone has a generation index, and its time.
pub open spec fn only_turn_with_index(steps: Seq<Vec<u8>>, index: i64, at: int, ms: i64) -> bool {
    &&& 0 <= at < steps.len()
    &&& turn_has_index(steps[at]@, index, ms)
    &&& forall|j: int, other: i64|
        0 <= j < steps.len() && j != at ==> !#[trigger] turn_has_index(steps[j]@, index, other)
}

/// A generation index dates a generation where exactly one dated model turn has it, and then by
/// that turn's time.
pub proof fn lemma_indices_that_date(steps: Seq<Vec<u8>>, index: i64, ms: i64)
    ensures
        (turn_times(steps).by_gen_idx)(index) == Some(ms) <==> exists|at: int|
            #[trigger] only_turn_with_index(steps, index, at, ms),
{
    let marks = index_marks(steps, index);
    lemma_marks(steps, Seq::empty(), index);
    if (turn_times(steps).by_gen_idx)(index) == Some(ms) {
        let at = lemma_present_is_sole(marks, ms);
        assert forall|j: int, other: i64| 0 <= j < steps.len() && j != at implies !#[trigger]
            turn_has_index(steps[j]@, index, other) by {
            assert(marks[j] is None);
        }
        assert(marks[at] == Some(ms));
        assert(only_turn_with_index(steps, index, at, ms));
    }
    if exists|at: int| #[trigger] only_turn_with_index(steps, index, at, ms) {
        let at = choose|at: int| #[trigger] only_turn_with_index(steps, index, at, ms);
        assert forall|j: int| 0 <= j < marks.len() && j != at implies (
        #[trigger] marks[j]) is None by {
            if let Some(other) = marks[j] {
                assert(turn_has_index(steps[j]@, index, other));
            }
        }
        lemma_sole_is_present(marks, at, ms);
    }
}

// ---------------------------------------------------------------------------
// Conversations
// ---------------------------------------------------------------------------
proof fn lemma_key_of_a_row_is_seen(rows: Seq<GenerationRow>, row: int)
    requires
        0 <= row < rows.len(),
        counted_key(rows[row]@.data) is Some,
    ensures
        seen_keys(rows).contains(counted_key(rows[row]@.data)->0),
    decreases rows.len(),
{
    if row < rows.len() - 1 {
        assert(rows.drop_last()[row] == rows[row]);
        lemma_key_of_a_row_is_seen(rows.drop_last(), row);
    }
}

/// Whether a row is the first of its response: it counts, and no row before it that counts has
/// the same key. A row without a key is always the first.
pub open spec fn is_first_of_its_response(rows: Seq<GenerationRow>, at: int) -> bool {
    &&& counts(rows[at]@.data)
    &&& counted_key(rows[at]@.data) is Some ==> forall|earlier: int|
        0 <= earlier < at ==> counted_key(#[trigger] rows[earlier]@.data) != counted_key(
            rows[at]@.data,
        )
}

/// The last of some rows gives a message where it is the first of its response.
proof fn lemma_last_row_emits(rows: Seq<GenerationRow>)
    requires
        rows.len() > 0,
    ensures
        emits(seen_keys(rows.drop_last()), rows.last()@.data) == is_first_of_its_response(
            rows,
            rows.len() - 1,
        ),
{
    let before = rows.drop_last();
    let last = rows.len() - 1;
    assert(rows[last] == rows.last());
    if let Some(key) = counted_key(rows.last()@.data) {
        if seen_keys(before).contains(key) {
            lemma_seen_key_has_row(before, key);
            let row = choose|row: int|
                0 <= row < before.len() && counted_key(#[trigger] before[row]@.data) == Some(key);
            assert(counted_key(rows[row]@.data) == Some(key));
        } else {
            assert forall|row: int| 0 <= row < last implies counted_key(#[trigger] rows[row]@.data)
                != Some(key) by {
                if counted_key(rows[row]@.data) == Some(key) {
                    assert(before[row] == rows[row]);
                    lemma_key_of_a_row_is_seen(before, row);
                }
            }
        }
    }
}

/// What is made of the positions that are taken, in their order.
spec fn gathered<M>(upto: nat, taken: spec_fn(int) -> bool, make: spec_fn(int) -> M) -> Seq<M>
    decreases upto,
{
    if upto == 0 {
        Seq::empty()
    } else {
        let earlier = gathered((upto - 1) as nat, taken, make);
        if taken(upto - 1) {
            earlier.push(make(upto - 1))
        } else {
            earlier
        }
    }
}

proof fn lemma_gathered<M>(upto: nat, taken: spec_fn(int) -> bool, make: spec_fn(int) -> M) -> (
origins: Seq<int>)
    ensures
        origins.len() == gathered(upto, taken, make).len(),
        forall|k: int|
            0 <= k < origins.len() ==> 0 <= #[trigger] origins[k] < upto && gathered(
                upto,
                taken,
                make,
            )[k] == make(origins[k]),
        forall|k: int, l: int|
            0 <= k < l < origins.len() ==> #[trigger] origins[k] < #[trigger] origins[l],
        forall|at: int| 0 <= at < upto ==> (#[trigger] origins.contains(at) <==> taken(at)),
    decreases upto,
{
    if upto == 0 {
        Seq::empty()
    } else {
        let last = upto - 1;
        let earlier = lemma_gathered(last as nat, taken, make);
        let origins = if taken(last) {
            earlier.push(last)
        } else {
            earlier
        };
        assert forall|at: int| 0 <= at < upto implies (#[trigger] origins.contains(at) <==> taken(
            at,
        )) by {
            if at < last {
                assert(earlier.contains(at) <==> taken(at));
                if earlier.contains(at) {
                    assert(origins[earlier.index_of(at)] == at);
                }
                if origins.contains(at) {
                    assert(earlier[origins.index_of(at)] == at);
                }
            } else {
                if taken(last) {
                    assert(origins[earlier.len() as int] == last);
                }
                if earlier.contains(at) {
                    assert(earlier[earlier.index_of(at)] == at);
                }
            }
        }
        origins
    }
}

proof fn lemma_messages_gathered(
    rows: Seq<GenerationRow>,
    session: SessionModel,
    upto: nat,
    taken: spec_fn(int) -> bool,
    make: spec_fn(int) -> MessageModel,
)
    requires
        upto <= rows.len(),
        forall|at: int| #[trigger] taken(at) == is_first_of_its_response(rows, at),
        forall|at: int| #[trigger] make(at) == session_message(rows[at]@, session),
    ensures
        session_messages(rows.take(upto as int), session) == gathered(upto, taken, make),
    decreases upto,
{
    if upto > 0 {
        let last = upto - 1;
        let all = rows.take(upto as int);
        lemma_messages_gathered(rows, session, last as nat, taken, make);
        assert(all.drop_last() =~= rows.take(last));
        assert(all.last() == rows[last]);
        lemma_last_row_emits(all);
        assert forall|i: int| 0 <= i <= last implies all[i] == rows[i] by {}
        assert(is_first_of_its_response(all, last) == is_first_of_its_response(rows, last));
        assert(taken(last) == is_first_of_its_response(rows, last));
        assert(make(last) == session_message(rows[last]@, session));
    }
}

/// A conversation has one message for each row that is the first of its response, in the order
/// of the rows, and no others. The origins are the positions of these rows.
pub proof fn lemma_messages_are_of_first_rows(rows: Seq<GenerationRow>, session: SessionModel) -> (
origins: Seq<int>)
    ensures
        origins.len() == session_messages(rows, session).len(),
        forall|k: int|
            0 <= k < origins.len() ==> 0 <= #[trigger] origins[k] < rows.len() && session_messages(
                rows,
                session,
            )[k] == session_message(rows[origins[k]]@, session),
        forall|k: int, l: int|
            0 <= k < l < origins.len() ==> #[trigger] origins[k] < #[trigger] origins[l],
        forall|at: int|
            0 <= at < rows.len() ==> (#[trigger] origins.contains(at) <==> is_first_of_its_response(
                rows,
                at,
            )),
{
    let taken = |at: int| is_first_of_its_response(rows, at);
    let make = |at: int| session_message(rows[at]@, session);
    lemma_messages_gathered(rows, session, rows.len(), taken, make);
    assert(rows.take(rows.len() as int) =~= rows);
    let origins = lemma_gathered(rows.len(), taken, make);
    assert forall|at: int| 0 <= at < rows.len() implies (#[trigger] origins.contains(at)
        <==> is_first_of_its_response(rows, at)) by {
        assert(taken(at) == is_first_of_its_response(rows, at));
    }
    origins
}

/// The messages of a conversation belong to its session and its workspace, which nothing else of
/// them depends on.
pub proof fn lemma_messages_share_their_session(row: RowModel, session: SessionModel)
    ensures
        ({
            let message = session_message(row, session);
            let own = row_message(row, session.session_id, session.time, session.times);
            &&& message.workspace_key == session.workspace_key
            &&& message.workspace_label == session.workspace_label
            &&& message == (MessageModel {
                workspace_key: session.workspace_key,
                workspace_label: session.workspace_label,
                ..own
            })
            &&& message.session_id == session.session_id
        }),
{
}

/// Whether the metadata of a conversation says when it was created: field 2 of the trajectory.
pub open spec fn is_created_at(file: ConversationFile, ms: i64) -> bool {
    file.trajectory matches Some(blob) && message_in(blob@, 2) matches Some(ts) && timestamp_ms(ts)
        == Some(ms)
}

/// A session is named by its file, and dated by when it was created where that is after the
/// epoch, else by its file. It has a workspace where the metadata names one that the host has a
/// key for.
pub proof fn lemma_session_of_a_file(file: ConversationFile)
    ensures
        file.stem matches Some(stem) ==> file.session().session_id == stem@,
        file.stem is None ==> file.session().session_id == "unknown"@,
        forall|ms: i64| #[trigger] is_created_at(file, ms) && ms > 0 ==> file.session().time == ms,
        (forall|ms: i64| #[trigger] is_created_at(file, ms) ==> ms <= 0) ==> file.session().time
            == file.modified_ms,
        ({
            let named = file.trajectory is Some && exists|folder: Seq<u8>, uri: Seq<char>|
                message_in(file.trajectory->0@, 1) == Some(folder) && #[trigger] string_in(
                    folder,
                    1,
                ) == Some(uri) && #[trigger] is_file_uri(uri);
            &&& named && file.workspace_key is Some ==> file.session().workspace_key == Some(
                file.workspace_key->0@,
            ) && (file.workspace_label is Some ==> file.session().workspace_label == Some(
                file.workspace_label->0@,
            )) && (file.workspace_label is None ==> file.session().workspace_label is None)
            &&& !named || file.workspace_key is None ==> file.session().workspace_key is None
                && file.session().workspace_label is None
        }),
        file.session().times == turn_times(file.steps@),
{
    if let Some(blob) = file.trajectory {
        assert(file.session().time == file.modified_ms || is_created_at(file, file.session().time));
        if let Some(folder) = message_in(blob@, 1) {
            if let Some(uri) = string_in(folder, 1) {
                lemma_file_uris(uri);
            }
        }
    }
}

// ---------------------------------------------------------------------------
// URIs
// ---------------------------------------------------------------------------
/// Whether a text is a `file` URI.
pub open spec fn is_file_uri(uri: Seq<char>) -> bool {
    exists|body: Seq<char>| uri == #[trigger] ("file://"@ + body)
}

/// A `file` URI has a path, and no other text has: that of what stands behind the scheme, its
/// escapes decoded.
pub proof fn lemma_file_uris(uri: Seq<char>)
    ensures
        uri_path(uri) is Some <==> is_file_uri(uri),
        forall|body: Seq<char>|
            uri == #[trigger] ("file://"@ + body) ==> uri_path(uri) == Some(
                uri_body_path(lossy_text(unescaped(encode_utf8(body)))),
            ),
{
    reveal_strlit("file://");
    let scheme = seq!['f', 'i', 'l', 'e', ':', '/', '/'];
    assert("file://"@ =~= scheme);
    if scheme.is_prefix_of(uri) {
        assert(uri =~= "file://"@ + uri.skip(7));
    }
    assert forall|body: Seq<char>| uri == #[trigger] ("file://"@ + body) implies uri_path(uri)
        == Some(uri_body_path(decoded(body))) by {
        assert(uri.skip(7) =~= body);
        assert(scheme.is_prefix_of(uri));
    }
}

/// The path of a URI body in terms of its bytes.
pub proof fn lemma_paths_of_uri_bytes(body: Seq<char>)
    ensures
        ({
            let bytes = encode_utf8(body);
            let absolute = bytes.len() > 0 && bytes[0] == 0x2f;
            let drive = absolute && bytes.len() > 2 && bytes[2] == 0x3a;
            &&& drive ==> uri_body_path(body) == body.skip(1)
            &&& absolute && !drive ==> uri_body_path(body) == body
            &&& !absolute ==> uri_body_path(body) == seq!['/', '/'] + body
        }),
{
}

/// The path of an ASCII URI body: a drive letter loses the slash before it, another absolute path
/// stays as it is, and a host gets two slashes in front.
pub proof fn lemma_paths_of_uri_bodies(body: Seq<char>)
    requires
        is_ascii_chars(body),
    ensures
        body.len() >= 3 && body[0] == '/' && body[2] == ':' ==> seq!['/'] + uri_body_path(body)
            == body,
        body.len() > 0 && body[0] == '/' && !(body.len() >= 3 && body[2] == ':') ==> uri_body_path(
            body,
        ) == body,
        body.len() == 0 || body[0] != '/' ==> uri_body_path(body) == seq!['/', '/'] + body,
{
    is_ascii_chars_encode_utf8(body);
    if body.len() >= 3 && body[0] == '/' && body[2] == ':' {
        assert(seq!['/'] + body.skip(1) =~= body);
    }
}

/// The byte of a hexadecimal digit, in either case.
pub open spec fn nibble(value: int, upper: bool) -> u8 {
    if value < 10 {
        (0x30 + value) as u8
    } else if upper {
        (0x41 + value - 10) as u8
    } else {
        (0x61 + value - 10) as u8
    }
}

/// A byte as a percent escape.
pub open spec fn escape(byte: u8, upper: bool) -> Seq<u8> {
    seq![0x25u8, nibble(byte as int / 16, upper), nibble(byte as int % 16, upper)]
}

/// An escape stands for its byte, whatever follows; another byte than a percent sign stands for
/// itself, and so does a percent sign without two hexadecimal digits behind it.
pub proof fn lemma_escapes_stand_for_bytes(byte: u8, upper: bool, rest: Seq<u8>)
    ensures
        unescaped(escape(byte, upper) + rest) == seq![byte] + unescaped(rest),
        byte != 0x25 ==> unescaped(seq![byte] + rest) == seq![byte] + unescaped(rest),
        byte == 0x25 && (rest.len() < 2 || !(exists|value: int, case: bool|
            0 <= value < 16 && rest[0] == #[trigger] nibble(value, case)) || !(exists|
            value: int,
            case: bool,
        |
            0 <= value < 16 && rest[1] == #[trigger] nibble(value, case))) ==> unescaped(
            seq![byte] + rest,
        ) == seq![byte] + unescaped(rest),
        unescaped(Seq::empty()) == Seq::<u8>::empty(),
{
    let escaped = escape(byte, upper) + rest;
    assert(escaped.skip(3) =~= rest);
    assert(is_escape(escaped));
    let plain = seq![byte] + rest;
    assert(plain.skip(1) =~= rest);
    if byte == 0x25 && is_escape(plain) {
        lemma_hex_digit_is_nibble(rest[0]);
        lemma_hex_digit_is_nibble(rest[1]);
    }
}

proof fn lemma_hex_digit_is_nibble(byte: u8)
    requires
        hex_digit(byte) is Some,
    ensures
        exists|value: int, case: bool| 0 <= value < 16 && byte == #[trigger] nibble(value, case),
{
    let value = hex_digit(byte)->0 as int;
    assert(byte == nibble(value, true) || byte == nibble(value, false));
}

/// The workspace that the metadata names is at the path of the URI in field 1 of field 1, and the
/// conversation was created at the time in field 2.
pub proof fn lemma_what_a_trajectory_says(trajectory: Seq<u8>)
    ensures
        message_in(trajectory, 1) is None ==> workspace_in(trajectory) is None,
        message_in(trajectory, 1) matches Some(folder) ==> match string_in(folder, 1) {
            Some(uri) => workspace_in(trajectory) == uri_path(uri),
            None => workspace_in(trajectory) is None,
        },
        message_in(trajectory, 2) is None ==> created_ms(trajectory) is None,
        message_in(trajectory, 2) matches Some(ts) ==> created_ms(trajectory) == timestamp_ms(ts),
{
}

} // verus!
