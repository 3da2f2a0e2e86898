//! Report pages: records by key, each with the totals of the messages that have the key.
use vstd::prelude::*;
use vstd::utf8::*;

use crate::messages::text_of;
use crate::ordered::{
    lemma_bytes_irreflexive, lemma_bytes_transitive, lemma_text_total, place_text, text_before,
    Ordered, Place, SortedTable,
};

verus! {

// ---------------------------------------------------------------------------
// Keys
// ---------------------------------------------------------------------------
/// What tells the records of a page apart. A page that has no use for a part leaves it zero or
/// empty.
pub struct RecordKey {
    pub start: i64,
    pub offset: i32,
    pub label: String,
    pub client: String,
    pub model: Option<String>,
    pub provider: Option<String>,
}

/// A key with texts as characters.
pub ghost struct KeyModel {
    pub start: i64,
    pub offset: i32,
    pub label: Seq<char>,
    pub client: Seq<char>,
    pub model: Option<Seq<char>>,
    pub provider: Option<Seq<char>>,
}

impl View for RecordKey {
    type V = KeyModel;

    open spec fn view(&self) -> KeyModel {
        KeyModel {
            start: self.start,
            offset: self.offset,
            label: self.label@,
            client: self.client@,
            model: text_of(self.model),
            provider: text_of(self.provider),
        }
    }
}

/// Optional texts in order: a missing one comes first.
pub open spec fn optional_before(a: Option<Seq<char>>, b: Option<Seq<char>>) -> bool {
    match (a, b) {
        (None, Some(_)) => true,
        (Some(a), Some(b)) => text_before(a, b),
        _ => false,
    }
}

/// Keys in the order of their parts, the first difference deciding.
pub open spec fn key_before(a: KeyModel, b: KeyModel) -> bool {
    if a.start != b.start {
        a.start < b.start
    } else if a.offset != b.offset {
        a.offset < b.offset
    } else if a.label != b.label {
        text_before(a.label, b.label)
    } else if a.client != b.client {
        text_before(a.client, b.client)
    } else if a.model != b.model {
        optional_before(a.model, b.model)
    } else {
        optional_before(a.provider, b.provider)
    }
}

proof fn lemma_text_order(a: Seq<char>, b: Seq<char>, c: Seq<char>)
    ensures
        !text_before(a, a),
        text_before(a, b) && text_before(b, c) ==> text_before(a, c),
        text_before(a, b) ==> a != b,
        text_before(a, b) ==> !text_before(b, a),
{
    lemma_bytes_irreflexive(encode_utf8(a));
    if text_before(a, b) && text_before(b, c) {
        lemma_bytes_transitive(encode_utf8(a), encode_utf8(b), encode_utf8(c));
    }
    if text_before(a, b) && text_before(b, a) {
        lemma_bytes_transitive(encode_utf8(a), encode_utf8(b), encode_utf8(a));
    }
}

proof fn lemma_optional_order(a: Option<Seq<char>>, b: Option<Seq<char>>, c: Option<Seq<char>>)
    ensures
        !optional_before(a, a),
        optional_before(a, b) && optional_before(b, c) ==> optional_before(a, c),
        optional_before(a, b) ==> a != b,
        optional_before(a, b) ==> !optional_before(b, a),
{
    if a is Some {
        lemma_text_order(a->0, a->0, a->0);
        if b is Some {
            lemma_text_order(a->0, b->0, a->0);
            if c is Some {
                lemma_text_order(a->0, b->0, c->0);
            }
        }
    }
}

/// Of two different keys, one comes before the other.
pub proof fn lemma_key_total(a: KeyModel, b: KeyModel)
    ensures
        a == b || key_before(a, b) || key_before(b, a),
{
    lemma_text_total(a.label, b.label);
    lemma_text_total(a.client, b.client);
    if a.model is Some && b.model is Some {
        lemma_text_total(a.model->0, b.model->0);
    }
    if a.provider is Some && b.provider is Some {
        lemma_text_total(a.provider->0, b.provider->0);
    }
}

fn place_optional(a: &Option<String>, b: &Option<String>) -> (place: Place)
    ensures
        match place {
            Place::Before => optional_before(text_of(*a), text_of(*b)),
            Place::Same => text_of(*a) == text_of(*b),
            Place::After => optional_before(text_of(*b), text_of(*a)),
        },
{
    match (a, b) {
        (None, None) => Place::Same,
        (None, Some(_)) => Place::Before,
        (Some(_), None) => Place::After,
        (Some(a), Some(b)) => place_text(a.as_str(), b.as_str()),
    }
}

impl Ordered for RecordKey {
    open spec fn before(a: KeyModel, b: KeyModel) -> bool {
        key_before(a, b)
    }

    proof fn irreflexive(a: KeyModel) {
        lemma_optional_order(a.provider, a.provider, a.provider);
    }

    proof fn transitive(a: KeyModel, b: KeyModel, c: KeyModel) {
        lemma_text_order(a.label, b.label, c.label);
        lemma_text_order(a.client, b.client, c.client);
        lemma_optional_order(a.model, b.model, c.model);
        lemma_optional_order(a.provider, b.provider, c.provider);
    }

    fn place(&self, other: &Self) -> (place: Place) {
        proof {
            lemma_text_order(self.label@, other.label@, self.label@);
            lemma_text_order(other.label@, self.label@, self.label@);
            lemma_text_order(self.client@, other.client@, self.client@);
            lemma_text_order(other.client@, self.client@, self.client@);
            lemma_optional_order(text_of(self.model), text_of(other.model), text_of(self.model));
            lemma_optional_order(text_of(other.model), text_of(self.model), text_of(self.model));
        }
        if self.start != other.start {
            return if self.start < other.start {
                Place::Before
            } else {
                Place::After
            };
        }
        if self.offset != other.offset {
            return if self.offset < other.offset {
                Place::Before
            } else {
                Place::After
            };
        }
        match place_text(self.label.as_str(), other.label.as_str()) {
            Place::Same => {},
            place => return place,
        }
        match place_text(self.client.as_str(), other.client.as_str()) {
            Place::Same => {},
            place => return place,
        }
        match place_optional(&self.model, &other.model) {
            Place::Same => {},
            place => return place,
        }
        place_optional(&self.provider, &other.provider)
    }
}

// ---------------------------------------------------------------------------
// Amounts
// ---------------------------------------------------------------------------
/// What a record counts.
#[derive(Debug, Clone, Copy, PartialEq, Eq, Structural)]
pub struct Amounts {
    pub input_tokens: u64,
    pub output_tokens: u64,
    pub cache_read_tokens: u64,
    pub cache_write_tokens: u64,
    pub reasoning_tokens: u64,
    pub message_count: u64,
    pub turn_count: u64,
    pub cost_nano_usd: u64,
    pub duration_millis: u64,
    pub timed_tokens: u64,
    pub sample_count: u64,
}

/// Exact totals of amounts.
pub ghost struct Totals {
    pub input_tokens: nat,
    pub output_tokens: nat,
    pub cache_read_tokens: nat,
    pub cache_write_tokens: nat,
    pub reasoning_tokens: nat,
    pub message_count: nat,
    pub turn_count: nat,
    pub cost_nano_usd: nat,
    pub duration_millis: nat,
    pub timed_tokens: nat,
    pub sample_count: nat,
}

/// A total as far as 64 bits hold it.
pub open spec fn capped(total: nat) -> u64 {
    if total > u64::MAX {
        u64::MAX
    } else {
        total as u64
    }
}

impl Amounts {
    pub open spec fn zero() -> Amounts {
        Amounts {
            input_tokens: 0,
            output_tokens: 0,
            cache_read_tokens: 0,
            cache_write_tokens: 0,
            reasoning_tokens: 0,
            message_count: 0,
            turn_count: 0,
            cost_nano_usd: 0,
            duration_millis: 0,
            timed_tokens: 0,
            sample_count: 0,
        }
    }

    /// The exact sum of the five token counts.
    pub open spec fn token_sum(self) -> nat {
        (self.input_tokens + self.output_tokens + self.cache_read_tokens + self.cache_write_tokens
            + self.reasoning_tokens) as nat
    }

    /// Whether a sum with other amounts leaves 64 bits.
    pub open spec fn overflows_with(self, other: Amounts) -> bool {
        ||| self.input_tokens + other.input_tokens > u64::MAX
        ||| self.output_tokens + other.output_tokens > u64::MAX
        ||| self.cache_read_tokens + other.cache_read_tokens > u64::MAX
        ||| self.cache_write_tokens + other.cache_write_tokens > u64::MAX
        ||| self.reasoning_tokens + other.reasoning_tokens > u64::MAX
        ||| self.message_count + other.message_count > u64::MAX
        ||| self.turn_count + other.turn_count > u64::MAX
        ||| self.cost_nano_usd + other.cost_nano_usd > u64::MAX
        ||| self.duration_millis + other.duration_millis > u64::MAX
        ||| self.timed_tokens + other.timed_tokens > u64::MAX
        ||| self.sample_count + other.sample_count > u64::MAX
    }

    /// The sums with other amounts, each capped.
    pub open spec fn capped_sum(self, other: Amounts) -> Amounts {
        Amounts {
            input_tokens: capped((self.input_tokens + other.input_tokens) as nat),
            output_tokens: capped((self.output_tokens + other.output_tokens) as nat),
            cache_read_tokens: capped((self.cache_read_tokens + other.cache_read_tokens) as nat),
            cache_write_tokens: capped((self.cache_write_tokens + other.cache_write_tokens) as nat),
            reasoning_tokens: capped((self.reasoning_tokens + other.reasoning_tokens) as nat),
            message_count: capped((self.message_count + other.message_count) as nat),
            turn_count: capped((self.turn_count + other.turn_count) as nat),
            cost_nano_usd: capped((self.cost_nano_usd + other.cost_nano_usd) as nat),
            duration_millis: capped((self.duration_millis + other.duration_millis) as nat),
            timed_tokens: capped((self.timed_tokens + other.timed_tokens) as nat),
            sample_count: capped((self.sample_count + other.sample_count) as nat),
        }
    }

    /// Amounts of nothing.
    pub fn none() -> (amounts: Amounts)
        ensures
            amounts == Amounts::zero(),
    {
        Amounts {
            input_tokens: 0,
            output_tokens: 0,
            cache_read_tokens: 0,
            cache_write_tokens: 0,
            reasoning_tokens: 0,
            message_count: 0,
            turn_count: 0,
            cost_nano_usd: 0,
            duration_millis: 0,
            timed_tokens: 0,
            sample_count: 0,
        }
    }

    /// Adds other amounts and notes whether a sum was capped.
    pub fn accumulate(&mut self, other: &Amounts, saturated: &mut bool)
        ensures
            *final(self) == old(self).capped_sum(*other),
            *final(saturated) == (*old(saturated) || old(self).overflows_with(*other)),
    {
        saturating_add(&mut self.input_tokens, other.input_tokens, saturated);
        saturating_add(&mut self.output_tokens, other.output_tokens, saturated);
        saturating_add(&mut self.cache_read_tokens, other.cache_read_tokens, saturated);
        saturating_add(&mut self.cache_write_tokens, other.cache_write_tokens, saturated);
        saturating_add(&mut self.reasoning_tokens, other.reasoning_tokens, saturated);
        saturating_add(&mut self.message_count, other.message_count, saturated);
        saturating_add(&mut self.turn_count, other.turn_count, saturated);
        saturating_add(&mut self.cost_nano_usd, other.cost_nano_usd, saturated);
        saturating_add(&mut self.duration_millis, other.duration_millis, saturated);
        saturating_add(&mut self.timed_tokens, other.timed_tokens, saturated);
        saturating_add(&mut self.sample_count, other.sample_count, saturated);
    }
}

/// Adds a number to a count, and notes whether the sum was capped.
pub fn saturating_add(target: &mut u64, value: u64, saturated: &mut bool)
    ensures
        *final(target) == capped((*old(target) + value) as nat),
        *final(saturated) == (*old(saturated) || *old(target) + value > u64::MAX),
{
    match target.checked_add(value) {
        Some(sum) => {
            *target = sum;
        },
        None => {
            *target = u64::MAX;
            *saturated = true;
        },
    }
}

/// The tokens of all kinds, and whether their sum was capped.
pub fn token_total(amounts: &Amounts, saturated: &mut bool) -> (total: u64)
    ensures
        total == capped(amounts.token_sum()),
        *final(saturated) == (*old(saturated) || amounts.token_sum() > u64::MAX),
{
    let mut total: u64 = 0;
    saturating_add(&mut total, amounts.input_tokens, saturated);
    saturating_add(&mut total, amounts.output_tokens, saturated);
    saturating_add(&mut total, amounts.cache_read_tokens, saturated);
    saturating_add(&mut total, amounts.cache_write_tokens, saturated);
    saturating_add(&mut total, amounts.reasoning_tokens, saturated);
    total
}

impl Totals {
    pub open spec fn zero() -> Totals {
        Totals {
            input_tokens: 0,
            output_tokens: 0,
            cache_read_tokens: 0,
            cache_write_tokens: 0,
            reasoning_tokens: 0,
            message_count: 0,
            turn_count: 0,
            cost_nano_usd: 0,
            duration_millis: 0,
            timed_tokens: 0,
            sample_count: 0,
        }
    }

    pub open spec fn plus(self, amounts: Amounts) -> Totals {
        Totals {
            input_tokens: self.input_tokens + amounts.input_tokens as nat,
            output_tokens: self.output_tokens + amounts.output_tokens as nat,
            cache_read_tokens: self.cache_read_tokens + amounts.cache_read_tokens as nat,
            cache_write_tokens: self.cache_write_tokens + amounts.cache_write_tokens as nat,
            reasoning_tokens: self.reasoning_tokens + amounts.reasoning_tokens as nat,
            message_count: self.message_count + amounts.message_count as nat,
            turn_count: self.turn_count + amounts.turn_count as nat,
            cost_nano_usd: self.cost_nano_usd + amounts.cost_nano_usd as nat,
            duration_millis: self.duration_millis + amounts.duration_millis as nat,
            timed_tokens: self.timed_tokens + amounts.timed_tokens as nat,
            sample_count: self.sample_count + amounts.sample_count as nat,
        }
    }

    /// The totals as far as 64 bits hold each.
    pub open spec fn capped(self) -> Amounts {
        Amounts {
            input_tokens: capped(self.input_tokens),
            output_tokens: capped(self.output_tokens),
            cache_read_tokens: capped(self.cache_read_tokens),
            cache_write_tokens: capped(self.cache_write_tokens),
            reasoning_tokens: capped(self.reasoning_tokens),
            message_count: capped(self.message_count),
            turn_count: capped(self.turn_count),
            cost_nano_usd: capped(self.cost_nano_usd),
            duration_millis: capped(self.duration_millis),
            timed_tokens: capped(self.timed_tokens),
            sample_count: capped(self.sample_count),
        }
    }

    /// The exact sum of the five token totals.
    pub open spec fn token_sum(self) -> nat {
        self.input_tokens + self.output_tokens + self.cache_read_tokens + self.cache_write_tokens
            + self.reasoning_tokens
    }

    /// Whether 64 bits are too few for one of the totals.
    pub open spec fn exceeds(self) -> bool {
        ||| self.input_tokens > u64::MAX
        ||| self.output_tokens > u64::MAX
        ||| self.cache_read_tokens > u64::MAX
        ||| self.cache_write_tokens > u64::MAX
        ||| self.reasoning_tokens > u64::MAX
        ||| self.message_count > u64::MAX
        ||| self.turn_count > u64::MAX
        ||| self.cost_nano_usd > u64::MAX
        ||| self.duration_millis > u64::MAX
        ||| self.timed_tokens > u64::MAX
        ||| self.sample_count > u64::MAX
    }
}

/// To add to capped totals is to cap the exact ones.
proof fn lemma_capped_sum(totals: Totals, amounts: Amounts)
    ensures
        totals.capped().capped_sum(amounts) == totals.plus(amounts).capped(),
        totals.exceeds() ==> totals.plus(amounts).exceeds(),
        totals.capped().overflows_with(amounts) ==> totals.plus(amounts).exceeds(),
        totals.plus(amounts).exceeds() ==> totals.exceeds() || totals.capped().overflows_with(
            amounts,
        ),
{
}

// ---------------------------------------------------------------------------
// Pages
// ---------------------------------------------------------------------------
/// The exact totals of the entries with a key.
pub open spec fn totals_of(entries: Seq<(KeyModel, Amounts)>, key: KeyModel) -> Totals
    decreases entries.len(),
{
    if entries.len() == 0 {
        Totals::zero()
    } else {
        let earlier = totals_of(entries.drop_last(), key);
        if entries.last().0 == key {
            earlier.plus(entries.last().1)
        } else {
            earlier
        }
    }
}

/// Whether an entry has a key.
pub open spec fn has_key(entries: Seq<(KeyModel, Amounts)>, key: KeyModel) -> bool {
    exists|i: int| 0 <= i < entries.len() && (#[trigger] entries[i]).0 == key
}

/// Whether 64 bits are too few for a total of a key, or for the sum of its token totals.
pub open spec fn overflowing(entries: Seq<(KeyModel, Amounts)>) -> bool {
    exists|key: KeyModel|
        #![trigger totals_of(entries, key)]
        totals_of(entries, key).exceeds() || totals_of(entries, key).token_sum() > u64::MAX
}

/// A record of a page.
pub ghost struct RecordModel {
    pub key: KeyModel,
    pub amounts: Amounts,
    pub total_tokens: u64,
}

/// The records of a page: one for every key that an entry has, in the order of the keys, with
/// the capped totals of the key's entries and their capped token sum.
pub open spec fn page_records(records: Seq<RecordModel>, entries: Seq<(KeyModel, Amounts)>) -> bool {
    &&& forall|i: int, j: int|
        0 <= i < j < records.len() ==> key_before(
            (#[trigger] records[i]).key,
            (#[trigger] records[j]).key,
        )
    &&& forall|i: int| 0 <= i < records.len() ==> has_key(entries, (#[trigger] records[i]).key)
    &&& forall|at: int|
        0 <= at < entries.len() ==> exists|i: int|
            0 <= i < records.len() && (#[trigger] records[i]).key == (#[trigger] entries[at]).0
    &&& forall|i: int|
        0 <= i < records.len() ==> {
            let totals = totals_of(entries, (#[trigger] records[i]).key);
            records[i].amounts == totals.capped() && records[i].total_tokens == capped(
                totals.token_sum(),
            )
        }
}

/// A key that no entry has counts nothing.
pub proof fn lemma_absent_key(entries: Seq<(KeyModel, Amounts)>, key: KeyModel)
    requires
        !has_key(entries, key),
    ensures
        totals_of(entries, key) == Totals::zero(),
    decreases entries.len(),
{
    if entries.len() > 0 {
        let before = entries.drop_last();
        assert(entries[entries.len() - 1] == entries.last());
        assert forall|i: int| 0 <= i < before.len() implies (#[trigger] before[i]).0 != key by {
            assert(before[i] == entries[i]);
        }
        lemma_absent_key(before, key);
    }
}

/// What one more entry does to the totals.
pub proof fn lemma_entry_added(
    entries: Seq<(KeyModel, Amounts)>,
    key: KeyModel,
    amounts: Amounts,
)
    ensures
        forall|other: KeyModel|
            other != key ==> #[trigger] totals_of(entries.push((key, amounts)), other) == totals_of(
                entries,
                other,
            ),
        totals_of(entries.push((key, amounts)), key) == totals_of(entries, key).plus(amounts),
        overflowing(entries) ==> overflowing(entries.push((key, amounts))),
        totals_of(entries, key).capped().overflows_with(amounts) ==> overflowing(
            entries.push((key, amounts)),
        ),
        amounts.token_sum() > u64::MAX ==> overflowing(entries.push((key, amounts))),
        totals_of(entries.push((key, amounts)), key).exceeds() ==> totals_of(
            entries,
            key,
        ).exceeds() || totals_of(entries, key).capped().overflows_with(amounts),
{
    let added = entries.push((key, amounts));
    assert(added.drop_last() =~= entries);
    assert(added.last() == (key, amounts));
    lemma_capped_sum(totals_of(entries, key), amounts);
    let totals = totals_of(added, key);
    if overflowing(entries) {
        let other = choose|other: KeyModel|
            #![trigger totals_of(entries, other)]
            totals_of(entries, other).exceeds() || totals_of(entries, other).token_sum() > u64::MAX;
        assert(totals_of(added, other).exceeds() || totals_of(added, other).token_sum() > u64::MAX);
    }
    if totals_of(entries, key).capped().overflows_with(amounts) {
        assert(totals.exceeds());
    }
    if amounts.token_sum() > u64::MAX {
        assert(totals.token_sum() > u64::MAX);
    }
}

/// The records that a page has so far. It remembers the entries that it was given.
pub struct Page {
    table: SortedTable<RecordKey, Amounts>,
    entries: Ghost<Seq<(KeyModel, Amounts)>>,
}

impl Page {
    /// The entries that the page was given.
    pub closed spec fn entries(self) -> Seq<(KeyModel, Amounts)> {
        self.entries@
    }

    /// The keys of the page's records, in their order.
    pub closed spec fn keys(self) -> Seq<KeyModel> {
        self.table.keys()
    }

    /// The amounts of the page's records.
    pub closed spec fn values(self) -> Seq<Amounts> {
        self.table.values()
    }

    pub closed spec fn wf(self) -> bool {
        &&& self.table.wf()
        &&& self.table.entries@.len() <= self.entries@.len()
        &&& forall|i: int|
            0 <= i < self.table.entries@.len() ==> #[trigger] self.table.values()[i] == totals_of(
                self.entries@,
                self.table.keys()[i],
            ).capped()
        &&& forall|i: int|
            0 <= i < self.table.entries@.len() ==> has_key(
                self.entries@,
                #[trigger] self.table.keys()[i],
            )
        &&& forall|at: int|
            0 <= at < self.entries@.len() ==> self.table.keys().contains(
                (#[trigger] self.entries@[at]).0,
            )
    }

    /// What a well-formed page says of its entries.
    pub proof fn lemma_page(self)
        requires
            self.wf(),
        ensures
            self.keys().len() == self.values().len(),
            self.keys().len() <= self.entries().len(),
            forall|i: int, j: int|
                0 <= i < j < self.keys().len() ==> key_before(
                    #[trigger] self.keys()[i],
                    #[trigger] self.keys()[j],
                ),
            forall|i: int|
                0 <= i < self.keys().len() ==> #[trigger] self.values()[i] == totals_of(
                    self.entries(),
                    self.keys()[i],
                ).capped(),
            forall|i: int|
                0 <= i < self.keys().len() ==> has_key(self.entries(), #[trigger] self.keys()[i]),
            forall|at: int|
                0 <= at < self.entries().len() ==> self.keys().contains(
                    (#[trigger] self.entries()[at]).0,
                ),
    {
    }

    pub fn new() -> (page: Page)
        ensures
            page.wf(),
            page.entries() == Seq::<(KeyModel, Amounts)>::empty(),
    {
        Page { table: SortedTable::new(), entries: Ghost(Seq::empty()) }
    }

    pub fn len(&self) -> (length: usize)
        requires
            self.wf(),
        ensures
            length == self.keys().len(),
    {
        self.table.entries.len()
    }

    /// The key and the amounts of a record.
    pub fn record_at(&self, at: usize) -> (record: (&RecordKey, &Amounts))
        requires
            self.wf(),
            at < self.keys().len(),
        ensures
            record.0@ == self.keys()[at as int],
            *record.1 == self.values()[at as int],
    {
        let entry = &self.table.entries[at];
        (&entry.0, &entry.1)
    }

    /// Adds amounts to the record of a key, which is new if the page has none, and notes whether
    /// a total was capped.
    pub fn record(&mut self, key: RecordKey, amounts: &Amounts, saturated: &mut bool)
        requires
            old(self).wf(),
        ensures
            final(self).wf(),
            final(self).entries() == old(self).entries().push((key@, *amounts)),
            *final(saturated) == (*old(saturated) || totals_of(
                old(self).entries(),
                key@,
            ).capped().overflows_with(*amounts)),
    {
        let ghost before = *self;
        let ghost name = key@;
        let ghost added = self.entries@.push((key@, *amounts));
        proof {
            assert(added.drop_last() =~= self.entries@);
            assert(added.last() == (key@, *amounts));
            lemma_capped_sum(totals_of(self.entries@, key@), *amounts);
            assert forall|i: int| 0 <= i < self.entries@.len() implies added[i]
                == self.entries@[i] by {}
            assert(added[self.entries@.len() as int].0 == name);
        }
        match self.table.find(&key) {
            Ok(at) => {
                self.table.entries[at].1.accumulate(amounts, saturated);
                proof {
                    assert(self.table.keys() =~= before.table.keys());
                    assert(self.table.values() =~= before.table.values().update(
                        at as int,
                        self.table.entries@[at as int].1,
                    ));
                    assert(before.table.values()[at as int] == totals_of(
                        before.entries@,
                        name,
                    ).capped());
                    assert forall|i: int| 0 <= i < self.table.entries@.len() && i != at implies (
                    #[trigger] self.table.keys()[i]) != name by {
                        RecordKey::irreflexive(name);
                        assert(self.table.keys()[at as int] == name);
                    }
                }
            },
            Err(at) => {
                let mut amounts_so_far = Amounts::none();
                proof {
                    if has_key(before.entries@, name) {
                        let i = choose|i: int|
                            0 <= i < before.entries@.len() && (#[trigger] before.entries@[i]).0 == name;
                        assert(before.table.keys().contains(before.entries@[i].0));
                    }
                    lemma_absent_key(before.entries@, name);
                }
                amounts_so_far.accumulate(amounts, saturated);
                self.table.insert_at(at, key, amounts_so_far);
                proof {
                    let keys = self.table.keys();
                    assert(keys[at as int] == name);
                    assert forall|i: int| 0 <= i < self.table.entries@.len() implies {
                        &&& #[trigger] self.table.values()[i] == totals_of(added, keys[i]).capped()
                        &&& has_key(added, keys[i])
                    } by {
                        if i != at {
                            let origin = if i < at { i } else { i - 1 };
                            assert(keys[i] == before.table.keys()[origin]);
                            assert(self.table.values()[i] == before.table.values()[origin]);
                            assert(has_key(before.entries@, keys[i]));
                            let witness = choose|w: int|
                                0 <= w < before.entries@.len() && (#[trigger] before.entries@[w]).0
                                    == keys[i];
                            assert(added[witness].0 == keys[i]);
                            assert(before.table.keys().contains(keys[i]));
                        }
                    }
                    assert forall|w: int| 0 <= w < before.entries@.len() implies keys.contains(
                        (#[trigger] before.entries@[w]).0,
                    ) by {
                        let found = before.table.keys().index_of(before.entries@[w].0);
                        let moved = if found < at { found } else { found + 1 };
                        assert(keys[moved] == before.entries@[w].0);
                    }
                }
            },
        }
        self.entries = Ghost(added);
        proof {
            let keys = self.table.keys();
            assert(keys.contains(name));
            assert forall|w: int| 0 <= w < added.len() implies keys.contains(
                (#[trigger] added[w]).0,
            ) by {
                if w < before.entries@.len() {
                    assert(added[w] == before.entries@[w]);
                }
            }
            assert forall|i: int| 0 <= i < self.table.entries@.len() implies has_key(
                added,
                #[trigger] keys[i],
            ) by {
                if has_key(before.entries@, keys[i]) {
                    let witness = choose|w: int|
                        0 <= w < before.entries@.len() && (#[trigger] before.entries@[w]).0 == keys[i];
                    assert(added[witness].0 == keys[i]);
                }
            }
        }
    }
}

// ---------------------------------------------------------------------------
// Records
// ---------------------------------------------------------------------------
/// The records that the entries make.
pub open spec fn page_of(entries: Seq<(KeyModel, Amounts)>) -> Seq<RecordModel> {
    choose|records: Seq<RecordModel>| page_records(records, entries)
}

proof fn lemma_key_order(a: KeyModel, b: KeyModel)
    ensures
        key_before(a, b) ==> a != b && !key_before(b, a),
{
    RecordKey::irreflexive(a);
    if key_before(a, b) && key_before(b, a) {
        RecordKey::transitive(a, b, a);
    }
}

proof fn lemma_same_records_up_to(
    first: Seq<RecordModel>,
    second: Seq<RecordModel>,
    entries: Seq<(KeyModel, Amounts)>,
    upto: int,
)
    requires
        page_records(first, entries),
        page_records(second, entries),
        0 <= upto <= first.len(),
    ensures
        upto <= second.len(),
        forall|i: int| 0 <= i < upto ==> #[trigger] first[i] == second[i],
    decreases upto,
{
    if upto > 0 {
        let at = upto - 1;
        lemma_same_records_up_to(first, second, entries, at);
        let entry = choose|e: int| 0 <= e < entries.len() && (#[trigger] entries[e]).0 == first[at].key;
        let other = choose|i: int|
            0 <= i < second.len() && (#[trigger] second[i]).key == entries[entry].0;
        if other < at {
            assert(first[other] == second[other]);
            lemma_key_order(first[other].key, first[at].key);
        }
        assert(at <= other < second.len());
        let entry_back = choose|e: int|
            0 <= e < entries.len() && (#[trigger] entries[e]).0 == second[at].key;
        let back = choose|i: int|
            0 <= i < first.len() && (#[trigger] first[i]).key == entries[entry_back].0;
        if back < at {
            assert(first[back] == second[back]);
            lemma_key_order(second[back].key, second[at].key);
        }
        lemma_key_order(first[at].key, second[at].key);
        assert(first[at].key == second[at].key);
    }
}

/// The entries determine the records: a page is the same however it was built.
pub proof fn lemma_page_determined(
    first: Seq<RecordModel>,
    second: Seq<RecordModel>,
    entries: Seq<(KeyModel, Amounts)>,
)
    requires
        page_records(first, entries),
        page_records(second, entries),
    ensures
        first == second,
        first == page_of(entries),
{
    lemma_same_records_up_to(first, second, entries, first.len() as int);
    lemma_same_records_up_to(second, first, entries, second.len() as int);
    assert(first =~= second);
    let chosen = page_of(entries);
    assert(page_records(chosen, entries));
    lemma_same_records_up_to(first, chosen, entries, first.len() as int);
    lemma_same_records_up_to(chosen, first, entries, chosen.len() as int);
    assert(first =~= chosen);
}

/// The bytes of an optional text.
pub open spec fn optional_bytes(text: Option<Seq<char>>) -> nat {
    match text {
        Some(text) => encode_utf8(text).len(),
        None => 0,
    }
}

/// The bytes of a key's texts.
pub open spec fn key_bytes(key: KeyModel) -> nat {
    encode_utf8(key.label).len() + encode_utf8(key.client).len() + optional_bytes(key.model)
        + optional_bytes(key.provider)
}

/// The bytes of the texts of records.
pub open spec fn records_bytes(records: Seq<RecordModel>) -> nat
    decreases records.len(),
{
    if records.len() == 0 {
        0
    } else {
        records_bytes(records.drop_last()) + key_bytes(records.last().key)
    }
}

proof fn lemma_records_bytes_grow(records: Seq<RecordModel>, at: int)
    requires
        0 <= at <= records.len(),
    ensures
        records_bytes(records.take(at)) <= records_bytes(records),
    decreases records.len() - at,
{
    if at < records.len() {
        assert(records.take(at + 1).drop_last() =~= records.take(at));
        lemma_records_bytes_grow(records, at + 1);
    } else {
        assert(records.take(at) =~= records);
    }
}

/// The totals of a key whose token sum leaves 64 bits, if none of them does, show it capped too.
proof fn lemma_capped_token_sum(totals: Totals)
    ensures
        capped(totals.capped().token_sum()) == capped(totals.token_sum()),
        totals.capped().token_sum() <= totals.token_sum(),
        !totals.exceeds() ==> totals.capped().token_sum() == totals.token_sum(),
{
}

impl Page {
    /// The records of the page.
    pub open spec fn records(self) -> Seq<RecordModel> {
        Seq::new(
            self.keys().len(),
            |i: int|
                RecordModel {
                    key: self.keys()[i],
                    amounts: self.values()[i],
                    total_tokens: capped(self.values()[i].token_sum()),
                },
        )
    }

    /// A page holds the records that its entries make.
    pub proof fn lemma_records(self)
        requires
            self.wf(),
        ensures
            page_records(self.records(), self.entries()),
            self.records() == page_of(self.entries()),
            self.records().len() <= self.entries().len(),
    {
        self.lemma_page();
        let records = self.records();
        let entries = self.entries();
        assert forall|at: int| 0 <= at < entries.len() implies exists|i: int|
            0 <= i < records.len() && (#[trigger] records[i]).key == (#[trigger] entries[at]).0 by {
            assert(self.keys().contains(entries[at].0));
            let i = self.keys().index_of(entries[at].0);
            assert(records[i].key == entries[at].0);
        }
        assert forall|i: int| 0 <= i < records.len() implies {
            let totals = totals_of(entries, (#[trigger] records[i]).key);
            records[i].amounts == totals.capped() && records[i].total_tokens == capped(
                totals.token_sum(),
            )
        } by {
            assert(self.values()[i] == totals_of(entries, self.keys()[i]).capped());
            lemma_capped_token_sum(totals_of(entries, self.keys()[i]));
        }
        assert forall|i: int| 0 <= i < records.len() implies has_key(
            entries,
            (#[trigger] records[i]).key,
        ) by {
            assert(has_key(entries, self.keys()[i]));
        }
        lemma_page_determined(records, records, entries);
    }

    /// Whether the texts of the page's records have more bytes than a limit.
    pub fn exceeds_bytes(&self, limit: usize) -> (exceeds: bool)
        requires
            self.wf(),
        ensures
            exceeds == (records_bytes(page_of(self.entries())) > limit),
    {
        proof {
            self.lemma_records();
        }
        let ghost records = self.records();
        let mut total: usize = 0;
        let mut i: usize = 0;
        while i < self.len()
            invariant
                self.wf(),
                records == self.records(),
                records == page_of(self.entries()),
                i <= records.len(),
                total <= limit,
                total == records_bytes(records.take(i as int)),
            decreases records.len() - i,
        {
            proof {
                assert(records.take(i + 1).drop_last() =~= records.take(i as int));
                assert(records.take(i + 1).last() == records[i as int]);
                lemma_records_bytes_grow(records, i as int + 1);
            }
            let (key, _) = self.record_at(i);
            let label: usize = key.label.as_str().as_bytes().len();
            let client: usize = key.client.as_str().as_bytes().len();
            let model: usize = optional_len(&key.model);
            let provider: usize = optional_len(&key.provider);
            let mut left: usize = limit - total;
            if label > left {
                return true;
            }
            left = left - label;
            if client > left {
                return true;
            }
            left = left - client;
            if model > left {
                return true;
            }
            left = left - model;
            if provider > left {
                return true;
            }
            left = left - provider;
            total = limit - left;
            i = i + 1;
        }
        assert(records.take(i as int) =~= records);
        false
    }

    /// Notes whether the token sum of a record was capped.
    pub proof fn lemma_overflow_noted(self, noted: bool)
        requires
            self.wf(),
            forall|key: KeyModel|
                (#[trigger] totals_of(self.entries(), key)).exceeds() ==> noted,
        ensures
            overflowing(self.entries()) ==> noted || exists|i: int|
                0 <= i < self.keys().len() && (#[trigger] self.values()[i]).token_sum() > u64::MAX,
            (exists|i: int|
                0 <= i < self.keys().len() && (#[trigger] self.values()[i]).token_sum() > u64::MAX)
                ==> overflowing(self.entries()),
    {
        self.lemma_page();
        let entries = self.entries();
        if overflowing(entries) && !noted {
            let key = choose|key: KeyModel|
                #![trigger totals_of(entries, key)]
                totals_of(entries, key).exceeds() || totals_of(entries, key).token_sum() > u64::MAX;
            let totals = totals_of(entries, key);
            assert(!totals.exceeds());
            lemma_capped_token_sum(totals);
            if !has_key(entries, key) {
                lemma_absent_key(entries, key);
            }
            let entry = choose|e: int| 0 <= e < entries.len() && (#[trigger] entries[e]).0 == key;
            assert(self.keys().contains(entries[entry].0));
            let i = self.keys().index_of(key);
            assert(self.values()[i].token_sum() > u64::MAX);
        }
        if exists|i: int|
            0 <= i < self.keys().len() && (#[trigger] self.values()[i]).token_sum() > u64::MAX {
            let i = choose|i: int|
                0 <= i < self.keys().len() && (#[trigger] self.values()[i]).token_sum() > u64::MAX;
            let totals = totals_of(entries, self.keys()[i]);
            lemma_capped_token_sum(totals);
            assert(totals.token_sum() > u64::MAX);
        }
    }
}

fn optional_len(text: &Option<String>) -> (bytes: usize)
    ensures
        bytes == optional_bytes(text_of(*text)),
{
    match text {
        Some(text) => text.as_str().as_bytes().len(),
        None => 0,
    }
}

} // verus!
