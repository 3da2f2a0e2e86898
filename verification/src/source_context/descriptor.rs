//! Descriptors: a configuration written as bytes, so that no two configurations read the same.
use sha2::{Digest, Sha256};
use vstd::prelude::*;
use vstd::utf8::*;

use crate::source_context::paths::push_bytes;

verus! {

/// There is no source context.
#[derive(Debug, Clone, Copy, PartialEq, Eq, Structural)]
pub struct SourceContextUnavailable;

impl SourceContextUnavailable {
    /// The error in words.
    pub fn describe(&self) -> (text: String)
        ensures
            text@ == "sourceContextUnavailable"@,
    {
        "sourceContextUnavailable".to_owned()
    }
}

/// A number in four bytes, the most significant first.
pub open spec fn u32_bytes(value: u32) -> Seq<u8> {
    seq![
        (value / 0x100_0000) as u8,
        (value / 0x1_0000 % 0x100) as u8,
        (value / 0x100 % 0x100) as u8,
        (value % 0x100) as u8,
    ]
}

/// Whether a descriptor can count to a number.
pub open spec fn countable(count: nat) -> bool {
    count <= u32::MAX
}

/// A count.
pub open spec fn count_bytes(count: nat) -> Seq<u8> {
    u32_bytes(count as u32)
}

/// Bytes behind their count.
pub open spec fn counted(bytes: Seq<u8>) -> Seq<u8> {
    count_bytes(bytes.len()) + bytes
}

/// A text behind the count of its bytes.
pub open spec fn text_bytes(text: Seq<char>) -> Seq<u8> {
    counted(encode_utf8(text))
}

/// The mark of a field.
pub open spec fn field_mark(number: u8) -> Seq<u8> {
    seq![0xf0, number]
}

/// A string of the host: bytes on Unix, and 16-bit units, paired or not, on Windows.
#[derive(Debug, Clone, PartialEq, Eq)]
pub enum NativeString {
    Bytes(Vec<u8>),
    Units(Vec<u16>),
}

/// A string of the host.
pub ghost enum NativeModel {
    Bytes(Seq<u8>),
    Units(Seq<u16>),
}

impl View for NativeString {
    type V = NativeModel;

    open spec fn view(&self) -> NativeModel {
        match *self {
            NativeString::Bytes(bytes) => NativeModel::Bytes(bytes@),
            NativeString::Units(units) => NativeModel::Units(units@),
        }
    }
}

/// An optional string of the host.
pub open spec fn native_of(value: Option<NativeString>) -> Option<NativeModel> {
    match value {
        Some(value) => Some(value@),
        None => None,
    }
}

impl NativeModel {
    /// The byte that stands for the kind of string.
    pub open spec fn kind(self) -> u8 {
        match self {
            NativeModel::Bytes(_) => 1,
            NativeModel::Units(_) => 2,
        }
    }

    /// How many bytes or units the string has.
    pub open spec fn len(self) -> nat {
        match self {
            NativeModel::Bytes(bytes) => bytes.len(),
            NativeModel::Units(units) => units.len(),
        }
    }

    /// The bytes or units, as bytes.
    pub open spec fn body(self) -> Seq<u8> {
        match self {
            NativeModel::Bytes(bytes) => bytes,
            NativeModel::Units(units) => units_bytes(units),
        }
    }
}

/// Units, two bytes each, the most significant first.
pub open spec fn units_bytes(units: Seq<u16>) -> Seq<u8>
    decreases units.len(),
{
    if units.len() == 0 {
        Seq::empty()
    } else {
        units_bytes(units.drop_last()) + seq![
            (units.last() / 0x100) as u8,
            (units.last() % 0x100) as u8,
        ]
    }
}

/// A native string: its kind, the count of its bytes or units, and these.
pub open spec fn os_bytes(value: NativeModel) -> Seq<u8> {
    seq![value.kind()] + count_bytes(value.len()) + value.body()
}

/// A path.
pub open spec fn path_bytes(path: NativeModel) -> Seq<u8> {
    seq![1u8] + os_bytes(path)
}

/// A path behind a byte that tells whether it is there.
pub open spec fn optional_path_bytes(path: Option<NativeModel>) -> Seq<u8> {
    match path {
        Some(path) => seq![1u8] + path_bytes(path),
        None => seq![0u8],
    }
}

/// What is written behind a part is written behind all that came before.
pub proof fn lemma_written_behind(start: Seq<u8>, done: Seq<u8>, part: Seq<u8>)
    ensures
        start + done + part == start + (done + part),
{
    assert(start + done + part =~= start + (done + part));
}

/// A part that is written behind others is the last of them.
pub proof fn lemma_part_behind(start: Seq<u8>, done: Seq<Seq<u8>>, part: Seq<u8>)
    ensures
        start + done.flatten() + part == start + done.push(part).flatten(),
{
    done.lemma_flatten_push(part);
    lemma_written_behind(start, done.flatten(), part);
}

/// The digest of bytes by SHA-256.
pub uninterp spec fn sha256_of(bytes: Seq<u8>) -> Seq<u8>;

/// `Sha256::digest`: 32 bytes that depend on the given bytes alone.
#[verifier::external_body]
pub(crate) fn sha256(bytes: &[u8]) -> (digest: [u8; 32])
    ensures
        digest@ == sha256_of(bytes@),
{
    Sha256::digest(bytes).into()
}

/// A descriptor in the making.
pub struct Descriptor {
    pub bytes: Vec<u8>,
}

impl View for Descriptor {
    type V = Seq<u8>;

    open spec fn view(&self) -> Seq<u8> {
        self.bytes@
    }
}

impl Descriptor {
    pub fn new() -> (descriptor: Self)
        ensures
            descriptor@ == Seq::<u8>::empty(),
    {
        Descriptor { bytes: Vec::new() }
    }

    pub fn byte(&mut self, value: u8)
        ensures
            final(self)@ == old(self)@ + seq![value],
    {
        self.bytes.push(value);
        assert(self.bytes@ =~= old(self).bytes@ + seq![value]);
    }

    pub fn field(&mut self, number: u8)
        ensures
            final(self)@ == old(self)@ + field_mark(number),
    {
        self.byte(0xf0);
        self.byte(number);
        assert(self@ =~= old(self)@ + field_mark(number));
    }

    pub fn flag(&mut self, value: bool)
        ensures
            final(self)@ == old(self)@ + seq![
                if value {
                    1u8
                } else {
                    0u8
                },
            ],
    {
        if value {
            self.byte(1);
        } else {
            self.byte(0);
        }
    }

    pub fn number(&mut self, value: u32)
        ensures
            final(self)@ == old(self)@ + u32_bytes(value),
    {
        self.byte((value / 0x100_0000) as u8);
        self.byte((value / 0x1_0000 % 0x100) as u8);
        self.byte((value / 0x100 % 0x100) as u8);
        self.byte((value % 0x100) as u8);
        assert(self@ =~= old(self)@ + u32_bytes(value));
    }

    pub fn count(&mut self, value: usize) -> (written: Result<(), SourceContextUnavailable>)
        ensures
            written is Ok <==> countable(value as nat),
            written is Ok ==> final(self)@ == old(self)@ + count_bytes(value as nat),
            written is Err ==> final(self)@ == old(self)@,
    {
        if value > u32::MAX as usize {
            return Err(SourceContextUnavailable);
        }
        self.number(value as u32);
        Ok(())
    }

    pub fn counted_bytes(&mut self, value: &[u8]) -> (written: Result<(), SourceContextUnavailable>)
        ensures
            written is Ok <==> countable(value@.len()),
            written is Ok ==> final(self)@ == old(self)@ + counted(value@),
            written is Err ==> final(self)@ == old(self)@,
    {
        if let Err(error) = self.count(value.len()) {
            return Err(error);
        }
        push_bytes(&mut self.bytes, value);
        assert(self@ =~= old(self)@ + counted(value@));
        Ok(())
    }

    pub fn text(&mut self, value: &str) -> (written: Result<(), SourceContextUnavailable>)
        ensures
            written is Ok <==> countable(encode_utf8(value@).len()),
            written is Ok ==> final(self)@ == old(self)@ + text_bytes(value@),
            written is Err ==> final(self)@ == old(self)@,
    {
        self.counted_bytes(value.as_bytes())
    }

    fn units(&mut self, units: &[u16])
        ensures
            final(self)@ == old(self)@ + units_bytes(units@),
    {
        let ghost start = self@;
        let mut i: usize = 0;
        assert(start + units_bytes(units@.take(0)) =~= start);
        while i < units.len()
            invariant
                i <= units@.len(),
                self@ == start + units_bytes(units@.take(i as int)),
            decreases units@.len() - i,
        {
            assert(units@.take(i + 1).drop_last() =~= units@.take(i as int));
            self.byte((units[i] / 0x100) as u8);
            self.byte((units[i] % 0x100) as u8);
            i = i + 1;
            assert(self@ =~= start + units_bytes(units@.take(i as int)));
        }
        assert(units@.take(i as int) =~= units@);
    }

    pub fn os(&mut self, value: &NativeString) -> (written: Result<(), SourceContextUnavailable>)
        ensures
            written is Ok <==> countable(value@.len()),
            written is Ok ==> final(self)@ == old(self)@ + os_bytes(value@),
            written is Err ==> final(self)@ == old(self)@ + seq![value@.kind()],
    {
        match value {
            NativeString::Bytes(bytes) => {
                self.byte(1);
                if let Err(error) = self.counted_bytes(bytes.as_slice()) {
                    return Err(error);
                }
            },
            NativeString::Units(units) => {
                self.byte(2);
                if let Err(error) = self.count(units.len()) {
                    return Err(error);
                }
                self.units(units.as_slice());
            },
        }
        assert(self@ =~= old(self)@ + os_bytes(value@));
        Ok(())
    }

    pub fn path(&mut self, value: &NativeString) -> (written: Result<(), SourceContextUnavailable>)
        ensures
            written is Ok <==> countable(value@.len()),
            written is Ok ==> final(self)@ == old(self)@ + path_bytes(value@),
            written is Err ==> final(self)@ == old(self)@ + seq![1u8, value@.kind()],
    {
        self.byte(1);
        if let Err(error) = self.os(value) {
            assert(self@ =~= old(self)@ + seq![1u8, value@.kind()]);
            return Err(error);
        }
        assert(self@ =~= old(self)@ + path_bytes(value@));
        Ok(())
    }

    pub fn optional_path(&mut self, value: &Option<NativeString>) -> (written: Result<
        (),
        SourceContextUnavailable,
    >)
        ensures
            written is Ok <==> match *value {
                Some(path) => countable(path@.len()),
                None => true,
            },
            written is Ok ==> final(self)@ == old(self)@ + optional_path_bytes(native_of(*value)),
            written is Err ==> *value is Some && final(self)@ == old(self)@ + seq![
                1u8,
                1u8,
                value->0@.kind(),
            ],
    {
        match value {
            Some(path) => {
                self.byte(1);
                if let Err(error) = self.path(path) {
                    assert(self@ =~= old(self)@ + seq![1u8, 1u8, path@.kind()]);
                    return Err(error);
                }
                assert(self@ =~= old(self)@ + optional_path_bytes(Some(path@)));
                Ok(())
            },
            None => {
                self.byte(0);
                Ok(())
            },
        }
    }
}

/// Numbers are written with the most significant byte first, four bytes to a number and two to a
/// unit.
pub proof fn lemma_numbers_in_descriptors(value: u32, units: Seq<u16>, at: int)
    requires
        0 <= at < units.len(),
    ensures
        countable(value as nat),
        !countable(0x1_0000_0000),
        u32_bytes(value).len() == 4,
        u32_bytes(value)[0] * 0x100_0000 + u32_bytes(value)[1] * 0x1_0000 + u32_bytes(value)[2]
            * 0x100 + u32_bytes(value)[3] == value,
        units_bytes(units).len() == 2 * units.len(),
        units_bytes(units)[2 * at] * 0x100 + units_bytes(units)[2 * at + 1] == units[at],
    decreases units.len(),
{
    let before = units.drop_last();
    assert(units_bytes(before).len() == 2 * before.len()) by {
        if before.len() > 0 {
            lemma_numbers_in_descriptors(value, before, 0);
        }
    }
    if at < before.len() {
        lemma_numbers_in_descriptors(value, before, at);
        assert(before[at] == units[at]);
        assert(units_bytes(units)[2 * at] == units_bytes(before)[2 * at]);
        assert(units_bytes(units)[2 * at + 1] == units_bytes(before)[2 * at + 1]);
    }
}

/// Bytes and texts stand behind the count of their bytes, and a native string behind its kind and
/// its count. A path has a byte in front, and an optional one another, which tells whether it is
/// there.
pub proof fn lemma_strings_in_descriptors(text: Seq<char>, bytes: Seq<u8>, units: Seq<u16>)
    requires
        bytes.len() <= u32::MAX,
        units.len() <= u32::MAX,
        encode_utf8(text).len() <= u32::MAX,
    ensures
        counted(bytes) == u32_bytes(bytes.len() as u32) + bytes,
        text_bytes(text) == u32_bytes(encode_utf8(text).len() as u32) + encode_utf8(text),
        os_bytes(NativeModel::Bytes(bytes)) == seq![1u8] + u32_bytes(bytes.len() as u32) + bytes,
        os_bytes(NativeModel::Units(units)) == seq![2u8] + u32_bytes(units.len() as u32)
            + units_bytes(units),
        path_bytes(NativeModel::Bytes(bytes)) == seq![1u8] + os_bytes(NativeModel::Bytes(bytes)),
        optional_path_bytes(None) == seq![0u8],
        optional_path_bytes(Some(NativeModel::Bytes(bytes))) == seq![1u8] + path_bytes(
            NativeModel::Bytes(bytes),
        ),
{
}

} // verus!
