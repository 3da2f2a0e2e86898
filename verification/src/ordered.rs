//! Ordered keys, and tables sorted by them.
use vstd::prelude::*;
use vstd::utf8::*;

verus! {

/// How a key stands to another.
pub enum Place {
    Before,
    Same,
    After,
}

/// A key type with a strict total order on what its values say.
pub trait Ordered: View + Sized {
    /// Whether `a` comes strictly before `b`.
    spec fn before(a: Self::V, b: Self::V) -> bool;

    proof fn irreflexive(a: Self::V)
        ensures
            !Self::before(a, a),
    ;

    proof fn transitive(a: Self::V, b: Self::V, c: Self::V)
        requires
            Self::before(a, b),
            Self::before(b, c),
        ensures
            Self::before(a, c),
    ;

    /// Compares two keys.
    fn place(&self, other: &Self) -> (place: Place)
        ensures
            match place {
                Place::Before => Self::before(self@, other@),
                Place::Same => self@ == other@,
                Place::After => Self::before(other@, self@),
            },
    ;
}

/// Byte strings in lexicographic order: a proper prefix comes first.
pub open spec fn bytes_before(a: Seq<u8>, b: Seq<u8>) -> bool
    decreases a.len(),
{
    if b.len() == 0 {
        false
    } else if a.len() == 0 {
        true
    } else if a[0] != b[0] {
        a[0] < b[0]
    } else {
        bytes_before(a.drop_first(), b.drop_first())
    }
}

pub proof fn lemma_bytes_irreflexive(a: Seq<u8>)
    ensures
        !bytes_before(a, a),
    decreases a.len(),
{
    if a.len() > 0 {
        lemma_bytes_irreflexive(a.drop_first());
    }
}

pub proof fn lemma_bytes_transitive(a: Seq<u8>, b: Seq<u8>, c: Seq<u8>)
    requires
        bytes_before(a, b),
        bytes_before(b, c),
    ensures
        bytes_before(a, c),
    decreases a.len(),
{
    if a.len() > 0 && a[0] == b[0] && b[0] == c[0] {
        lemma_bytes_transitive(a.drop_first(), b.drop_first(), c.drop_first());
    }
}

/// Compares two byte strings.
pub fn place_bytes(a: &[u8], b: &[u8]) -> (place: Place)
    ensures
        match place {
            Place::Before => bytes_before(a@, b@),
            Place::Same => a@ == b@,
            Place::After => bytes_before(b@, a@),
        },
{
    let mut i: usize = 0;
    proof {
        assert(a@.skip(0) =~= a@);
        assert(b@.skip(0) =~= b@);
    }
    while i < a.len() && i < b.len()
        invariant
            i <= a@.len(),
            i <= b@.len(),
            a@.take(i as int) == b@.take(i as int),
            bytes_before(a@, b@) == bytes_before(a@.skip(i as int), b@.skip(i as int)),
            bytes_before(b@, a@) == bytes_before(b@.skip(i as int), a@.skip(i as int)),
        decreases a@.len() - i,
    {
        proof {
            assert(a@.skip(i as int).drop_first() =~= a@.skip(i + 1));
            assert(b@.skip(i as int).drop_first() =~= b@.skip(i + 1));
            assert(a@.skip(i as int)[0] == a@[i as int]);
            assert(b@.skip(i as int)[0] == b@[i as int]);
        }
        if a[i] < b[i] {
            return Place::Before;
        }
        if b[i] < a[i] {
            return Place::After;
        }
        proof {
            assert(a@.take(i + 1) =~= a@.take(i as int).push(a@[i as int]));
            assert(b@.take(i + 1) =~= b@.take(i as int).push(b@[i as int]));
        }
        i = i + 1;
    }
    if i < b.len() {
        Place::Before
    } else if i < a.len() {
        Place::After
    } else {
        proof {
            assert(a@.take(i as int) =~= a@);
            assert(b@.take(i as int) =~= b@);
        }
        Place::Same
    }
}

impl Ordered for Vec<u8> {
    open spec fn before(a: Seq<u8>, b: Seq<u8>) -> bool {
        bytes_before(a, b)
    }

    proof fn irreflexive(a: Seq<u8>) {
        lemma_bytes_irreflexive(a);
    }

    proof fn transitive(a: Seq<u8>, b: Seq<u8>, c: Seq<u8>) {
        lemma_bytes_transitive(a, b, c);
    }

    fn place(&self, other: &Self) -> (place: Place) {
        place_bytes(self.as_slice(), other.as_slice())
    }
}

/// Texts in the order of their UTF-8 bytes.
pub open spec fn text_before(a: Seq<char>, b: Seq<char>) -> bool {
    bytes_before(encode_utf8(a), encode_utf8(b))
}

proof fn lemma_bytes_total(a: Seq<u8>, b: Seq<u8>)
    ensures
        a == b || bytes_before(a, b) || bytes_before(b, a),
    decreases a.len(),
{
    if a.len() == 0 || b.len() == 0 {
        if a.len() == b.len() {
            assert(a =~= b);
        }
    } else if a[0] == b[0] {
        lemma_bytes_total(a.drop_first(), b.drop_first());
        if a.drop_first() == b.drop_first() {
            assert(a =~= seq![a[0]] + a.drop_first());
            assert(b =~= seq![b[0]] + b.drop_first());
        }
    }
}

/// Of two different texts, one comes before the other.
pub proof fn lemma_text_total(a: Seq<char>, b: Seq<char>)
    ensures
        a == b || text_before(a, b) || text_before(b, a),
{
    lemma_bytes_total(encode_utf8(a), encode_utf8(b));
    encode_utf8_decode_utf8(a);
    encode_utf8_decode_utf8(b);
}

/// Compares two texts.
pub fn place_text(a: &str, b: &str) -> (place: Place)
    ensures
        match place {
            Place::Before => text_before(a@, b@),
            Place::Same => a@ == b@,
            Place::After => text_before(b@, a@),
        },
{
    proof {
        encode_utf8_decode_utf8(a@);
        encode_utf8_decode_utf8(b@);
    }
    place_bytes(a.as_bytes(), b.as_bytes())
}

/// Whether two texts are equal.
pub fn same_text(a: &str, b: &str) -> (same: bool)
    ensures
        same == (a@ == b@),
{
    proof {
        lemma_bytes_irreflexive(encode_utf8(a@));
    }
    match place_text(a, b) {
        Place::Same => true,
        _ => false,
    }
}

/// What follows a prefix, where the text has it.
pub fn strip_prefix<'a>(text: &'a str, prefix: &str) -> (rest: Option<&'a str>)
    ensures
        match rest {
            Some(rest) => text@ == prefix@ + rest@,
            None => !prefix@.is_prefix_of(text@),
        },
{
    let length: usize = text.unicode_len();
    let skipped: usize = prefix.unicode_len();
    if length < skipped {
        return None;
    }
    let head = text.substring_char(0, skipped);
    if same_text(head, prefix) {
        let rest = text.substring_char(skipped, length);
        assert(text@ =~= prefix@ + rest@);
        Some(rest)
    } else {
        None
    }
}

impl Ordered for i64 {
    open spec fn before(a: i64, b: i64) -> bool {
        a < b
    }

    proof fn irreflexive(a: i64) {
    }

    proof fn transitive(a: i64, b: i64, c: i64) {
    }

    fn place(&self, other: &Self) -> (place: Place) {
        if *self < *other {
            Place::Before
        } else if *other < *self {
            Place::After
        } else {
            Place::Same
        }
    }
}

/// A table with at most one value per key, its entries sorted by key.
pub struct SortedTable<K, V> {
    pub entries: Vec<(K, V)>,
}

impl<K: Ordered, V> SortedTable<K, V> {
    /// The keys in their order.
    pub open spec fn keys(self) -> Seq<K::V> {
        self.entries@.map_values(|entry: (K, V)| entry.0@)
    }

    /// The values in the order of their keys.
    pub open spec fn values(self) -> Seq<V> {
        self.entries@.map_values(|entry: (K, V)| entry.1)
    }

    pub open spec fn wf(self) -> bool {
        forall|i: int, j: int|
            0 <= i < j < self.entries@.len() ==> K::before(
                #[trigger] self.keys()[i],
                #[trigger] self.keys()[j],
            )
    }

    /// The value of a key, if the table has one.
    pub open spec fn get(self, key: K::V) -> Option<V> {
        if self.keys().contains(key) {
            Some(self.values()[self.keys().index_of(key)])
        } else {
            None
        }
    }

    /// Every entry is what the table says of its key.
    pub proof fn lemma_get(self, at: int)
        requires
            self.wf(),
            0 <= at < self.entries@.len(),
        ensures
            self.get(self.keys()[at]) == Some(self.values()[at]),
    {
        let key = self.keys()[at];
        let other = self.keys().index_of(key);
        assert(self.keys()[at] == key);
        assert(self.keys()[other] == key);
        K::irreflexive(key);
        assert(other == at);
    }

    pub fn new() -> (table: Self)
        ensures
            table.wf(),
            table.entries@.len() == 0,
            table.keys() == Seq::<K::V>::empty(),
            table.values() == Seq::<V>::empty(),
            forall|key: K::V| table.get(key) is None,
    {
        SortedTable { entries: Vec::new() }
    }

    /// Where the key stands (`Ok`), or where it belongs (`Err`).
    pub fn find(&self, key: &K) -> (place: Result<usize, usize>)
        requires
            self.wf(),
        ensures
            match place {
                Ok(at) => at < self.entries@.len() && self.keys()[at as int] == key@,
                Err(at) => {
                    &&& at <= self.entries@.len()
                    &&& !self.keys().contains(key@)
                    &&& forall|i: int| 0 <= i < at ==> K::before(#[trigger] self.keys()[i], key@)
                    &&& forall|i: int|
                        at <= i < self.entries@.len() ==> K::before(
                            key@,
                            #[trigger] self.keys()[i],
                        )
                },
            },
    {
        let mut low: usize = 0;
        let mut high: usize = self.entries.len();
        while low < high
            invariant
                self.wf(),
                low <= high <= self.entries@.len(),
                forall|i: int| 0 <= i < low ==> K::before(#[trigger] self.keys()[i], key@),
                forall|i: int|
                    high <= i < self.entries@.len() ==> K::before(key@, #[trigger] self.keys()[i]),
            decreases high - low,
        {
            let middle: usize = low + (high - low) / 2;
            let ghost keys = self.keys();
            assert(keys[middle as int] == self.entries@[middle as int].0@);
            match self.entries[middle].0.place(key) {
                Place::Same => return Ok(middle),
                Place::Before => {
                    proof {
                        assert forall|i: int| 0 <= i < middle + 1 implies K::before(
                            #[trigger] keys[i],
                            key@,
                        ) by {
                            if i < middle {
                                K::transitive(keys[i], keys[middle as int], key@);
                            }
                        }
                    }
                    low = middle + 1;
                },
                Place::After => {
                    proof {
                        assert forall|i: int| middle <= i < self.entries@.len() implies K::before(
                            key@,
                            #[trigger] keys[i],
                        ) by {
                            if i > middle {
                                K::transitive(key@, keys[middle as int], keys[i]);
                            }
                        }
                    }
                    high = middle;
                },
            }
        }
        proof {
            K::irreflexive(key@);
            if self.keys().contains(key@) {
                let i = choose|i: int| 0 <= i < self.keys().len() && self.keys()[i] == key@;
                assert(self.keys()[i] == key@);
            }
        }
        Err(low)
    }

    /// Puts a new key where it belongs.
    pub fn insert_at(&mut self, at: usize, key: K, value: V)
        requires
            old(self).wf(),
            at <= old(self).entries@.len(),
            forall|i: int| 0 <= i < at ==> K::before(#[trigger] old(self).keys()[i], key@),
            forall|i: int|
                at <= i < old(self).entries@.len() ==> K::before(key@, #[trigger] old(self).keys()[i]),
        ensures
            final(self).wf(),
            final(self).keys() == old(self).keys().insert(at as int, key@),
            final(self).values() == old(self).values().insert(at as int, value),
            final(self).entries@ == old(self).entries@.insert(at as int, (key, value)),
    {
        self.entries.insert(at, (key, value));
        proof {
            assert(self.keys() =~= old(self).keys().insert(at as int, key@));
            assert(self.values() =~= old(self).values().insert(at as int, value));
            let keys = self.keys();
            let before = old(self).keys();
            assert forall|i: int, j: int| 0 <= i < j < self.entries@.len() implies K::before(
                #[trigger] keys[i],
                #[trigger] keys[j],
            ) by {
                let from = if i < at { i } else { i - 1 };
                let to = if j < at { j } else { j - 1 };
                assert(i != at ==> keys[i] == before[from]);
                assert(j != at ==> keys[j] == before[to]);
            }
        }
    }

    /// The value of a key.
    pub fn lookup(&self, key: &K) -> (value: Option<&V>)
        requires
            self.wf(),
        ensures
            match value {
                Some(value) => self.get(key@) == Some(*value),
                None => self.get(key@) is None,
            },
    {
        match self.find(key) {
            Ok(at) => {
                proof {
                    self.lemma_get(at as int);
                }
                Some(&self.entries[at].1)
            },
            Err(_) => None,
        }
    }

    /// Gives a key its value, in place of an earlier one.
    pub fn set(&mut self, key: K, value: V)
        requires
            old(self).wf(),
        ensures
            final(self).wf(),
            final(self).get(key@) == Some(value),
            forall|other: K::V| other != key@ ==> final(self).get(other) == old(self).get(other),
    {
        match self.find(&key) {
            Ok(at) => {
                let ghost before = *self;
                self.entries[at].1 = value;
                proof {
                    assert(self.keys() =~= before.keys());
                    assert(self.values() =~= before.values().update(at as int, value));
                    self.lemma_get(at as int);
                    assert forall|other: K::V| other != key@ implies self.get(other) == before.get(
                        other,
                    ) by {
                        if before.keys().contains(other) {
                            let i = before.keys().index_of(other);
                            assert(self.keys()[i] == other);
                            self.lemma_get(i);
                            before.lemma_get(i);
                        }
                    }
                }
            },
            Err(at) => {
                let ghost before = *self;
                let ghost name = key@;
                self.insert_at(at, key, value);
                proof {
                    assert(self.keys()[at as int] == name);
                    self.lemma_get(at as int);
                    assert forall|other: K::V| other != name implies self.get(other) == before.get(
                        other,
                    ) by {
                        if before.keys().contains(other) {
                            let i = before.keys().index_of(other);
                            let moved = if i < at { i } else { i + 1 };
                            assert(self.keys()[moved] == other);
                            self.lemma_get(moved);
                            before.lemma_get(i);
                        } else if self.keys().contains(other) {
                            let i = self.keys().index_of(other);
                            let origin = if i < at { i } else { i - 1 };
                            assert(before.keys()[origin] == other);
                        }
                    }
                }
            },
        }
    }
}

/// Bytes come before others where the first byte in which they differ is smaller, or where they
/// are a proper prefix of them.
pub proof fn lemma_first_difference_decides(a: Seq<u8>, b: Seq<u8>, at: int)
    requires
        0 <= at <= a.len(),
        at <= b.len(),
        forall|i: int| 0 <= i < at ==> #[trigger] a[i] == b[i],
    ensures
        at < a.len() && at < b.len() && a[at] != b[at] ==> bytes_before(a, b) == (a[at] < b[at]),
        at == a.len() ==> bytes_before(a, b) == (a.len() < b.len()),
        at == b.len() ==> !bytes_before(a, b),
    decreases at,
{
    if at > 0 {
        let x = a.drop_first();
        let y = b.drop_first();
        assert(a[0] == b[0]);
        assert forall|i: int| 0 <= i < at - 1 implies #[trigger] x[i] == y[i] by {
            assert(a[i + 1] == b[i + 1]);
        }
        lemma_first_difference_decides(x, y, at - 1);
        if at < a.len() && at < b.len() {
            assert(x[at - 1] == a[at] && y[at - 1] == b[at]);
        }
    }
}

/// Texts are in the order of their bytes in UTF-8.
pub proof fn lemma_texts_in_byte_order(a: Seq<char>, b: Seq<char>)
    ensures
        text_before(a, b) == bytes_before(encode_utf8(a), encode_utf8(b)),
{
}

} // verus!
