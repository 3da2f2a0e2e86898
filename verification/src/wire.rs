//! A small reader of the protobuf wire format: no schema, only field numbers and wire types.
use vstd::arithmetic::power::*;
use vstd::prelude::*;
use vstd::utf8::*;

use crate::text::utf8_text;

verus! {

/// A varint holds at most this many bytes.
pub const MAX_VARINT_BYTES: usize = 10;

/// The number written by varint bytes: seven bits each, the least significant first.
pub open spec fn base128(bytes: Seq<u8>) -> nat
    decreases bytes.len(),
{
    if bytes.len() == 0 {
        0
    } else {
        base128(bytes.drop_last()) + (bytes.last() % 128) as nat * pow(
            128,
            (bytes.len() - 1) as nat,
        ) as nat
    }
}

/// Where the varint at `pos` ends: behind the first byte without a continuation bit, if one
/// comes among the next `left` bytes.
pub open spec fn varint_end(buf: Seq<u8>, pos: int, left: nat) -> Option<int>
    decreases left,
{
    if left == 0 || pos < 0 || pos >= buf.len() {
        None
    } else if buf[pos] < 128 {
        Some(pos + 1)
    } else {
        varint_end(buf, pos + 1, (left - 1) as nat)
    }
}

/// The varint at `pos`, reduced to 64 bits, and the position behind it.
pub open spec fn varint_at(buf: Seq<u8>, pos: int) -> Option<(u64, int)> {
    match varint_end(buf, pos, MAX_VARINT_BYTES as nat) {
        None => None,
        Some(end) => Some(
            ((base128(buf.subrange(pos, end)) % 0x1_0000_0000_0000_0000) as u64, end),
        ),
    }
}

/// Where a reader stands that has found no varint at `pos`: behind as many bytes as a varint can
/// have, or at the end of the buffer.
pub open spec fn varint_stop(buf: Seq<u8>, pos: int) -> int {
    if pos + MAX_VARINT_BYTES <= buf.len() {
        pos + MAX_VARINT_BYTES
    } else {
        buf.len() as int
    }
}

/// What a field holds.
pub ghost enum WireModel {
    Varint(u64),
    Len(Seq<u8>),
    Fixed64,
    Fixed32,
}

/// The field at `pos`: its number, its value and the position behind it. There is none at the
/// end of the buffer, where a value is cut off, and at a wire type other than 0, 1, 2 and 5.
pub open spec fn field_at(buf: Seq<u8>, pos: int) -> Option<(u64, WireModel, int)> {
    match varint_at(buf, pos) {
        None => None,
        Some((tag, start)) => {
            let number = (tag / 8) as u64;
            let kind = tag % 8;
            if kind == 0 {
                match varint_at(buf, start) {
                    None => None,
                    Some((value, end)) => Some((number, WireModel::Varint(value), end)),
                }
            } else if kind == 1 {
                if start + 8 <= buf.len() {
                    Some((number, WireModel::Fixed64, start + 8))
                } else {
                    None
                }
            } else if kind == 2 {
                match varint_at(buf, start) {
                    None => None,
                    Some((length, body)) => {
                        let end = body + (length as usize);
                        if end <= buf.len() {
                            Some((number, WireModel::Len(buf.subrange(body, end)), end))
                        } else {
                            None
                        }
                    },
                }
            } else if kind == 5 {
                if start + 4 <= buf.len() {
                    Some((number, WireModel::Fixed32, start + 4))
                } else {
                    None
                }
            } else {
                None
            }
        },
    }
}

/// Where a reader stands that has found no field at `pos`: behind the varints that it has read.
pub open spec fn field_stop(buf: Seq<u8>, pos: int) -> int {
    match varint_at(buf, pos) {
        None => varint_stop(buf, pos),
        Some((tag, start)) => {
            let kind = tag % 8;
            match varint_at(buf, start) {
                None => if kind == 0 || kind == 2 {
                    varint_stop(buf, start)
                } else {
                    start
                },
                Some((length, body)) => if kind == 2 {
                    body
                } else {
                    start
                },
            }
        },
    }
}

proof fn lemma_varint_end(buf: Seq<u8>, pos: int, left: nat)
    ensures
        varint_end(buf, pos, left) matches Some(end) ==> 0 <= pos < end <= buf.len() && end <= pos
            + left,
    decreases left,
{
    if left > 0 && 0 <= pos < buf.len() {
        lemma_varint_end(buf, pos + 1, (left - 1) as nat);
    }
}

/// A field ends behind its start and within the buffer.
pub proof fn lemma_field_at(buf: Seq<u8>, pos: int)
    ensures
        field_at(buf, pos) matches Some((number, value, end)) ==> 0 <= pos < end <= buf.len(),
{
    lemma_varint_end(buf, pos, MAX_VARINT_BYTES as nat);
    if let Some((tag, start)) = varint_at(buf, pos) {
        lemma_varint_end(buf, start, MAX_VARINT_BYTES as nat);
    }
}

/// The fields from `pos` on, up to the first position that holds none.
pub open spec fn fields_from(buf: Seq<u8>, pos: int) -> Seq<(u64, WireModel)>
    decreases buf.len() - pos,
{
    match field_at(buf, pos) {
        None => Seq::empty(),
        Some((number, value, end)) => {
            proof {
                lemma_field_at(buf, pos);
            }
            seq![(number, value)] + fields_from(buf, end)
        },
    }
}

/// The first length-delimited value of field `number` in a list of fields.
pub open spec fn first_len(fields: Seq<(u64, WireModel)>, number: u64) -> Option<Seq<u8>>
    decreases fields.len(),
{
    if fields.len() == 0 {
        None
    } else if fields[0].0 == number && fields[0].1 is Len {
        Some(fields[0].1->Len_0)
    } else {
        first_len(fields.drop_first(), number)
    }
}

/// The first varint value of field `number` in a list of fields.
pub open spec fn first_varint(fields: Seq<(u64, WireModel)>, number: u64) -> Option<u64>
    decreases fields.len(),
{
    if fields.len() == 0 {
        None
    } else if fields[0].0 == number && fields[0].1 is Varint {
        Some(fields[0].1->Varint_0)
    } else {
        first_varint(fields.drop_first(), number)
    }
}

/// The first length-delimited value of field `number` in a message.
pub open spec fn message_in(buf: Seq<u8>, number: u64) -> Option<Seq<u8>> {
    first_len(fields_from(buf, 0), number)
}

/// The first varint value of field `number` in a message.
pub open spec fn varint_in(buf: Seq<u8>, number: u64) -> Option<u64> {
    first_varint(fields_from(buf, 0), number)
}

/// The text of the first length-delimited value of field `number`, if that value is UTF-8.
pub open spec fn string_in(buf: Seq<u8>, number: u64) -> Option<Seq<char>> {
    match message_in(buf, number) {
        Some(bytes) if valid_utf8(bytes) => Some(decode_utf8(bytes)),
        _ => None,
    }
}

/// A field's value, borrowed from the buffer that it was read from.
pub enum Wire<'a> {
    Varint(u64),
    Len(&'a [u8]),
    Fixed64,
    Fixed32,
}

impl<'a> View for Wire<'a> {
    type V = WireModel;

    open spec fn view(&self) -> WireModel {
        match *self {
            Wire::Varint(value) => WireModel::Varint(value),
            Wire::Len(bytes) => WireModel::Len(bytes@),
            Wire::Fixed64 => WireModel::Fixed64,
            Wire::Fixed32 => WireModel::Fixed32,
        }
    }
}

/// A position in a buffer of fields.
pub struct ProtoReader<'a> {
    pub buf: &'a [u8],
    pub pos: usize,
}

impl<'a> ProtoReader<'a> {
    pub open spec fn wf(&self) -> bool {
        self.pos <= self.buf@.len()
    }

    pub fn new(buf: &'a [u8]) -> (reader: Self)
        ensures
            reader.buf@ == buf@,
            reader.pos == 0,
            reader.wf(),
    {
        ProtoReader { buf, pos: 0 }
    }

    /// Reads the varint at the current position and moves behind it.
    pub fn read_varint(&mut self) -> (value: Option<u64>)
        requires
            old(self).wf(),
        ensures
            final(self).wf(),
            final(self).buf@ == old(self).buf@,
            old(self).pos <= final(self).pos,
            match varint_at(old(self).buf@, old(self).pos as int) {
                None => value is None && final(self).pos == varint_stop(
                    old(self).buf@,
                    old(self).pos as int,
                ),
                Some((number, end)) => {
                    &&& value == Some(number)
                    &&& final(self).pos == end
                    &&& old(self).pos < end
                },
            },
    {
        let start: usize = self.pos;
        let mut value: u128 = 0;
        let mut scale: u128 = 1;
        let mut read: usize = 0;
        proof {
            lemma_varint_end(self.buf@, start as int, MAX_VARINT_BYTES as nat);
            lemma_pow0(128);
            assert(self.buf@.subrange(start as int, start as int) =~= Seq::<u8>::empty());
            assert(pow(128, 10) == 0x40_0000_0000_0000_0000) by {
                reveal(pow);
                reveal_with_fuel(pow, 11);
            }
        }
        while read < MAX_VARINT_BYTES
            invariant
                self.wf(),
                self.buf@ == old(self).buf@,
                start == old(self).pos,
                read <= MAX_VARINT_BYTES,
                self.pos == start + read,
                scale == pow(128, read as nat),
                pow(128, 10) == 0x40_0000_0000_0000_0000,
                scale <= 0x40_0000_0000_0000_0000,
                value < scale,
                value == base128(self.buf@.subrange(start as int, self.pos as int)),
                varint_end(self.buf@, start as int, MAX_VARINT_BYTES as nat) == varint_end(
                    self.buf@,
                    self.pos as int,
                    (MAX_VARINT_BYTES - read) as nat,
                ),
            decreases MAX_VARINT_BYTES - read,
        {
            if self.pos >= self.buf.len() {
                return None;
            }
            let byte: u8 = self.buf[self.pos];
            let part: u128 = (byte % 128) as u128;
            proof {
                let before = self.buf@.subrange(start as int, self.pos as int);
                let after = self.buf@.subrange(start as int, self.pos + 1);
                assert(after.drop_last() =~= before);
                lemma_pow_adds(128, 1, read as nat);
                lemma_pow1(128);
                lemma_pow_increases(128, (read + 1) as nat, 10);
                assert(part * scale + value < 128 * scale) by (nonlinear_arith)
                    requires
                        0 <= part < 128,
                        value < scale,
                ;
                assert(pow(128, (read + 1) as nat) == 128 * scale);
                assert(0 <= part * scale) by (nonlinear_arith)
                    requires
                        0 <= part,
                        0 <= scale,
                ;
            }
            value = part * scale + value;
            self.pos = self.pos + 1;
            if byte < 128 {
                return Some((value % 0x1_0000_0000_0000_0000) as u64);
            }
            scale = 128 * scale;
            read = read + 1;
        }
        None
    }

    /// Reads the field at the current position, its number first, and moves behind it.
    pub fn next_field(&mut self) -> (field: Option<(u64, Wire<'a>)>)
        requires
            old(self).wf(),
        ensures
            final(self).wf(),
            final(self).buf@ == old(self).buf@,
            old(self).pos <= final(self).pos,
            match field_at(old(self).buf@, old(self).pos as int) {
                None => field is None && final(self).pos == field_stop(
                    old(self).buf@,
                    old(self).pos as int,
                ),
                Some((number, value, end)) => {
                    &&& field matches Some((found, wire)) && found == number && wire@ == value
                    &&& final(self).pos == end
                    &&& old(self).pos < end
                },
            },
    {
        if self.pos >= self.buf.len() {
            return None;
        }
        let tag: u64 = match self.read_varint() {
            Some(tag) => tag,
            None => return None,
        };
        let number: u64 = tag / 8;
        let kind: u64 = tag % 8;
        if kind == 0 {
            match self.read_varint() {
                Some(value) => Some((number, Wire::Varint(value))),
                None => None,
            }
        } else if kind == 1 {
            if self.buf.len() - self.pos < 8 {
                return None;
            }
            self.pos = self.pos + 8;
            Some((number, Wire::Fixed64))
        } else if kind == 2 {
            let length: usize = match self.read_varint() {
                Some(length) => length as usize,
                None => return None,
            };
            if self.buf.len() - self.pos < length {
                return None;
            }
            let body: usize = self.pos;
            let end: usize = body + length;
            let bytes = vstd::slice::slice_subrange(self.buf, body, end);
            self.pos = end;
            Some((number, Wire::Len(bytes)))
        } else if kind == 5 {
            if self.buf.len() - self.pos < 4 {
                return None;
            }
            self.pos = self.pos + 4;
            Some((number, Wire::Fixed32))
        } else {
            None
        }
    }
}

/// First length-delimited (sub-message, string or bytes) value for `field`.
pub fn message_field(buf: &[u8], field: u64) -> (value: Option<&[u8]>)
    ensures
        match value {
            Some(bytes) => message_in(buf@, field) == Some(bytes@),
            None => message_in(buf@, field) is None,
        },
{
    let mut reader = ProtoReader::new(buf);
    loop
        invariant
            reader.wf(),
            reader.buf@ == buf@,
            message_in(buf@, field) == first_len(fields_from(buf@, reader.pos as int), field),
        decreases buf@.len() - reader.pos,
    {
        let ghost pos = reader.pos as int;
        proof {
            lemma_field_at(buf@, pos);
        }
        match reader.next_field() {
            None => return None,
            Some((found, wire)) => {
                proof {
                    let rest = fields_from(buf@, reader.pos as int);
                    assert(fields_from(buf@, pos) == seq![(found, wire@)] + rest);
                    assert((seq![(found, wire@)] + rest).drop_first() =~= rest);
                }
                if found == field {
                    if let Wire::Len(bytes) = wire {
                        return Some(bytes);
                    }
                }
            },
        }
    }
}

/// First varint value for `field`.
pub fn varint_field(buf: &[u8], field: u64) -> (value: Option<u64>)
    ensures
        value == varint_in(buf@, field),
{
    let mut reader = ProtoReader::new(buf);
    loop
        invariant
            reader.wf(),
            reader.buf@ == buf@,
            varint_in(buf@, field) == first_varint(fields_from(buf@, reader.pos as int), field),
        decreases buf@.len() - reader.pos,
    {
        let ghost pos = reader.pos as int;
        proof {
            lemma_field_at(buf@, pos);
        }
        match reader.next_field() {
            None => return None,
            Some((found, wire)) => {
                proof {
                    let rest = fields_from(buf@, reader.pos as int);
                    assert(fields_from(buf@, pos) == seq![(found, wire@)] + rest);
                    assert((seq![(found, wire@)] + rest).drop_first() =~= rest);
                }
                if found == field {
                    if let Wire::Varint(number) = wire {
                        return Some(number);
                    }
                }
            },
        }
    }
}

/// First length-delimited value for `field`, where it is UTF-8 text.
pub fn string_field(buf: &[u8], field: u64) -> (value: Option<&str>)
    ensures
        match value {
            Some(text) => string_in(buf@, field) == Some(text@),
            None => string_in(buf@, field) is None,
        },
{
    match message_field(buf, field) {
        Some(bytes) => utf8_text(bytes),
        None => None,
    }
}

// ---------------------------------------------------------------------------
// Reading back what was written
// ---------------------------------------------------------------------------
/// A number as a varint: seven bits to a byte, the least significant first, and a continuation
/// bit on every byte but the last.
pub open spec fn varint_of(value: nat) -> Seq<u8>
    decreases value,
{
    if value < 128 {
        seq![value as u8]
    } else {
        seq![(value % 128 + 128) as u8] + varint_of(value / 128)
    }
}

/// A varint field: its tag and its number.
pub open spec fn written_varint(number: u64, value: u64) -> Seq<u8> {
    varint_of((number * 8) as nat) + varint_of(value as nat)
}

/// A length-delimited field: its tag, its length and its bytes.
pub open spec fn written_len(number: u64, body: Seq<u8>) -> Seq<u8> {
    varint_of((number * 8 + 2) as nat) + varint_of(body.len()) + body
}

/// A field of eight bytes or of four.
pub open spec fn written_fixed(number: u64, bytes: Seq<u8>) -> Seq<u8> {
    varint_of(
        (number * 8 + (if bytes.len() == 8 {
            1int
        } else {
            5
        })) as nat,
    ) + bytes
}

/// Whether a field can have a number: a tag has 64 bits, three of them for the wire type.
pub open spec fn is_field_number(number: u64) -> bool {
    number < 0x2000_0000_0000_0000
}

/// Whether a body can have a length: it is within 64 bits and within what the machine counts.
pub open spec fn is_body(body: Seq<u8>) -> bool {
    body.len() <= usize::MAX && body.len() <= u64::MAX
}

proof fn lemma_base128_first(first: u8, rest: Seq<u8>)
    ensures
        base128(seq![first] + rest) == first % 128 + 128 * base128(rest),
    decreases rest.len(),
{
    let all = seq![first] + rest;
    if rest.len() == 0 {
        lemma_pow0(128);
        assert(all.drop_last() =~= Seq::<u8>::empty());
        assert(base128(all.drop_last()) == 0);
        assert(all.last() == first);
        assert(base128(all) == (first % 128) as nat * pow(128, 0) as nat);
    } else {
        let front = rest.drop_last();
        lemma_base128_first(first, front);
        assert(all.drop_last() =~= seq![first] + front);
        assert(all.last() == rest.last());
        let n = front.len();
        lemma_pow_adds(128, 1, n);
        lemma_pow1(128);
        lemma_pow_positive(128, n);
        let digit = (rest.last() % 128) as int;
        let scale = pow(128, n);
        assert(pow(128, (all.len() - 1) as nat) == 128 * scale);
        assert(digit * (128 * scale) == 128 * (digit * scale)) by (nonlinear_arith);
        assert(0 <= digit * scale) by (nonlinear_arith)
            requires
                0 <= digit,
                0 < scale,
        ;
        assert(base128(all) == base128(all.drop_last()) + digit * (128 * scale));
        assert(base128(rest) == base128(front) + digit * scale);
    }
}

proof fn lemma_varint_value(value: nat)
    ensures
        base128(varint_of(value)) == value,
        varint_of(value).len() > 0,
    decreases value,
{
    if value < 128 {
        lemma_base128_first(value as u8, Seq::empty());
        assert(seq![value as u8] + Seq::<u8>::empty() =~= varint_of(value));
    } else {
        lemma_varint_value(value / 128);
        lemma_base128_first((value % 128 + 128) as u8, varint_of(value / 128));
    }
}

proof fn lemma_varint_ends(buf: Seq<u8>, pos: int, value: nat, left: nat)
    requires
        0 <= pos,
        pos + varint_of(value).len() <= buf.len(),
        buf.subrange(pos, pos + varint_of(value).len()) == varint_of(value),
        value < pow(128, left),
        left > 0,
    ensures
        varint_end(buf, pos, left) == Some(pos + varint_of(value).len()),
    decreases left,
{
    lemma_varint_value(value);
    if left == 1 {
        lemma_pow1(128);
    }
    let bytes = varint_of(value);
    assert(buf.subrange(pos, pos + bytes.len())[0] == bytes[0]);
    if value < 128 {
        assert(bytes[0] == value);
    } else {
        assert(bytes[0] >= 128);
        let rest = varint_of(value / 128);
        assert(buf.subrange(pos + 1, pos + 1 + rest.len()) =~= rest) by {
            assert forall|i: int| 0 <= i < rest.len() implies buf[pos + 1 + i] == rest[i] by {
                assert(bytes[i + 1] == rest[i]);
                assert(buf.subrange(pos, pos + bytes.len())[i + 1] == bytes[i + 1]);
            }
        }
        lemma_pow_adds(128, 1, (left - 1) as nat);
        lemma_pow1(128);
        lemma_varint_ends(buf, pos + 1, value / 128, (left - 1) as nat);
    }
}

proof fn lemma_ten_bytes()
    ensures
        pow(128, 10) == 0x40_0000_0000_0000_0000,
{
    reveal(pow);
    reveal_with_fuel(pow, 11);
}

/// A varint reads as the number that was written, wherever it stands and whatever follows.
pub proof fn lemma_varints_read_back(before: Seq<u8>, value: u64, behind: Seq<u8>)
    ensures
        varint_at(before + varint_of(value as nat) + behind, before.len() as int) == Some(
            (value, (before.len() + varint_of(value as nat).len()) as int),
        ),
{
    let bytes = varint_of(value as nat);
    let buf = before + bytes + behind;
    let pos = before.len() as int;
    assert(buf.subrange(pos, pos + bytes.len()) =~= bytes);
    lemma_ten_bytes();
    lemma_varint_ends(buf, pos, value as nat, 10);
    lemma_varint_value(value as nat);
}

proof fn lemma_varint_end_moved(before: Seq<u8>, buf: Seq<u8>, pos: int, left: nat)
    requires
        0 <= pos,
    ensures
        varint_end(before + buf, before.len() + pos, left) == (match varint_end(buf, pos, left) {
            Some(end) => Some(before.len() + end),
            None => None,
        }),
    decreases left,
{
    if left > 0 && pos < buf.len() {
        assert((before + buf)[before.len() + pos] == buf[pos]);
        lemma_varint_end_moved(before, buf, pos + 1, (left - 1) as nat);
    }
}

proof fn lemma_varint_moved(before: Seq<u8>, buf: Seq<u8>, pos: int)
    requires
        0 <= pos,
    ensures
        varint_at(before + buf, before.len() + pos) == (match varint_at(buf, pos) {
            Some((value, end)) => Some((value, before.len() + end)),
            None => None,
        }),
{
    lemma_varint_end_moved(before, buf, pos, MAX_VARINT_BYTES as nat);
    lemma_varint_end(buf, pos, MAX_VARINT_BYTES as nat);
    if let Some(end) = varint_end(buf, pos, MAX_VARINT_BYTES as nat) {
        assert((before + buf).subrange(before.len() + pos, before.len() + end) =~= buf.subrange(
            pos,
            end,
        ));
    }
}

proof fn lemma_field_moved(before: Seq<u8>, buf: Seq<u8>, pos: int)
    requires
        0 <= pos,
    ensures
        field_at(before + buf, before.len() + pos) == (match field_at(buf, pos) {
            Some((number, value, end)) => Some((number, value, before.len() + end)),
            None => None,
        }),
{
    lemma_varint_moved(before, buf, pos);
    if let Some((tag, start)) = varint_at(buf, pos) {
        lemma_varint_end(buf, pos, MAX_VARINT_BYTES as nat);
        lemma_varint_moved(before, buf, start);
        if let Some((length, body)) = varint_at(buf, start) {
            lemma_varint_end(buf, start, MAX_VARINT_BYTES as nat);
            let end = body + (length as usize);
            if end <= buf.len() {
                assert((before + buf).subrange(before.len() + body, before.len() + end)
                    =~= buf.subrange(body, end));
            }
        }
    }
}

proof fn lemma_fields_moved(before: Seq<u8>, buf: Seq<u8>, pos: int)
    requires
        0 <= pos,
    ensures
        fields_from(before + buf, before.len() + pos) == fields_from(buf, pos),
    decreases buf.len() - pos,
{
    lemma_field_moved(before, buf, pos);
    lemma_field_at(buf, pos);
    if let Some((number, value, end)) = field_at(buf, pos) {
        lemma_fields_moved(before, buf, end);
    }
}

/// The fields of a message are the one at its start and those behind it.
proof fn lemma_fields_behind(first: Seq<u8>, rest: Seq<u8>, number: u64, value: WireModel)
    requires
        field_at(first + rest, 0) == Some((number, value, first.len() as int)),
    ensures
        fields_from(first + rest, 0) == seq![(number, value)] + fields_from(rest, 0),
        (seq![(number, value)] + fields_from(rest, 0)).drop_first() == fields_from(rest, 0),
{
    lemma_fields_moved(first, rest, 0);
    lemma_field_at(first + rest, 0);
    assert((seq![(number, value)] + fields_from(rest, 0)).drop_first() =~= fields_from(rest, 0));
}

/// The first varint field of a number is read, whatever follows. Where another is asked for, it
/// is passed over, and so is it where a length-delimited field is.
pub proof fn lemma_varint_fields_read_back(number: u64, value: u64, rest: Seq<u8>, asked: u64)
    requires
        is_field_number(number),
    ensures
        varint_in(written_varint(number, value) + rest, number) == Some(value),
        asked != number ==> varint_in(written_varint(number, value) + rest, asked) == varint_in(
            rest,
            asked,
        ),
        message_in(written_varint(number, value) + rest, asked) == message_in(rest, asked),
{
    let tag = (number * 8) as u64;
    let first = written_varint(number, value);
    let buf = first + rest;
    lemma_varints_read_back(Seq::empty(), tag, varint_of(value as nat) + rest);
    assert(Seq::<u8>::empty() + varint_of(tag as nat) + (varint_of(value as nat) + rest) =~= buf);
    lemma_varints_read_back(varint_of(tag as nat), value, rest);
    lemma_fields_behind(first, rest, number, WireModel::Varint(value));
}

/// The first length-delimited field of a number is read, whatever follows. Where another is
/// asked for, it is passed over, and so is it where a varint is.
pub proof fn lemma_messages_read_back(number: u64, body: Seq<u8>, rest: Seq<u8>, asked: u64)
    requires
        is_field_number(number),
        is_body(body),
    ensures
        message_in(written_len(number, body) + rest, number) == Some(body),
        asked != number ==> message_in(written_len(number, body) + rest, asked) == message_in(
            rest,
            asked,
        ),
        varint_in(written_len(number, body) + rest, asked) == varint_in(rest, asked),
{
    let tag = (number * 8 + 2) as u64;
    let length = body.len() as u64;
    let first = written_len(number, body);
    let buf = first + rest;
    let tag_bytes = varint_of(tag as nat);
    let length_bytes = varint_of(length as nat);
    lemma_varints_read_back(Seq::empty(), tag, length_bytes + body + rest);
    assert(Seq::<u8>::empty() + tag_bytes + (length_bytes + body + rest) =~= buf);
    lemma_varints_read_back(tag_bytes, length, body + rest);
    assert(tag_bytes + length_bytes + (body + rest) =~= buf);
    let start = (tag_bytes.len() + length_bytes.len()) as int;
    assert(buf.subrange(start, start + body.len()) =~= body);
    assert(field_at(buf, 0) == Some((number, WireModel::Len(body), first.len() as int)));
    lemma_fields_behind(first, rest, number, WireModel::Len(body));
}

/// Fields of eight or four bytes are passed over.
pub proof fn lemma_fixed_fields_are_passed_over(
    number: u64,
    bytes: Seq<u8>,
    rest: Seq<u8>,
    asked: u64,
)
    requires
        is_field_number(number),
        bytes.len() == 8 || bytes.len() == 4,
    ensures
        message_in(written_fixed(number, bytes) + rest, asked) == message_in(rest, asked),
        varint_in(written_fixed(number, bytes) + rest, asked) == varint_in(rest, asked),
{
    let kind: u64 = if bytes.len() == 8 {
        1
    } else {
        5
    };
    let tag = (number * 8 + kind) as u64;
    let first = written_fixed(number, bytes);
    let buf = first + rest;
    lemma_varints_read_back(Seq::empty(), tag, bytes + rest);
    assert(Seq::<u8>::empty() + varint_of(tag as nat) + (bytes + rest) =~= buf);
    let value = if bytes.len() == 8 {
        WireModel::Fixed64
    } else {
        WireModel::Fixed32
    };
    lemma_fields_behind(first, rest, number, value);
}

/// A field whose bytes are cut off is none, and neither is anything in an empty message.
pub proof fn lemma_cut_off_fields_are_none(number: u64, body: Seq<u8>, left: int, asked: u64)
    requires
        is_field_number(number),
        is_body(body),
        0 <= left < body.len(),
    ensures
        message_in(
            varint_of((number * 8 + 2) as nat) + varint_of(body.len()) + body.take(left),
            asked,
        ) is None,
        message_in(Seq::empty(), asked) is None,
        varint_in(Seq::empty(), asked) is None,
{
    let tag = (number * 8 + 2) as u64;
    let length = body.len() as u64;
    let tag_bytes = varint_of(tag as nat);
    let length_bytes = varint_of(length as nat);
    let rest = body.take(left);
    let buf = tag_bytes + length_bytes + rest;
    lemma_varints_read_back(Seq::empty(), tag, length_bytes + rest);
    assert(Seq::<u8>::empty() + tag_bytes + (length_bytes + rest) =~= buf);
    lemma_varints_read_back(tag_bytes, length, rest);
}

/// The text of a field is what its bytes encode, and there is none where they are no UTF-8.
pub proof fn lemma_texts_read_back(number: u64, text: Seq<char>, rest: Seq<u8>)
    requires
        is_field_number(number),
        is_body(encode_utf8(text)),
    ensures
        string_in(written_len(number, encode_utf8(text)) + rest, number) == Some(text),
        forall|body: Seq<u8>|
            is_body(body) && !#[trigger] valid_utf8(body) ==> string_in(
                written_len(number, body) + rest,
                number,
            ) is None,
{
    lemma_messages_read_back(number, encode_utf8(text), rest, number);
    encode_utf8_valid_utf8(text);
    encode_utf8_decode_utf8(text);
    assert forall|body: Seq<u8>| is_body(body) && !#[trigger] valid_utf8(body) implies string_in(
        written_len(number, body) + rest,
        number,
    ) is None by {
        lemma_messages_read_back(number, body, rest, number);
    }
}

/// Ten bytes that all go on are no varint.
pub proof fn lemma_overlong_varints_are_none(buf: Seq<u8>, pos: int)
    requires
        0 <= pos,
        pos + 10 <= buf.len(),
        forall|i: int| pos <= i < pos + 10 ==> #[trigger] buf[i] >= 128,
    ensures
        varint_at(buf, pos) is None,
{
    reveal_with_fuel(varint_end, 11);
}

/// A reader that finds no varint has passed ten bytes, or as many as there are.
pub proof fn lemma_where_a_reader_stops(buf: Seq<u8>, pos: int)
    requires
        0 <= pos <= buf.len(),
    ensures
        varint_stop(buf, pos) == (if buf.len() - pos < 10 {
            buf.len() as int
        } else {
            pos + 10
        }),
        varint_at(buf, pos) is None ==> field_stop(buf, pos) == varint_stop(buf, pos),
        varint_at(buf, pos) matches Some((tag, start)) ==> {
            &&& (tag % 8 == 0 || tag % 8 == 2) && varint_at(buf, start) is None ==> field_stop(
                buf,
                pos,
            ) == varint_stop(buf, start)
            &&& tag % 8 == 2 ==> (varint_at(buf, start) matches Some((length, body)) ==> field_stop(
                buf,
                pos,
            ) == body)
            &&& tag % 8 != 0 && tag % 8 != 2 ==> field_stop(buf, pos) == start
        },
{
}

/// A message ends where a field has a wire type that is not read: nothing behind it counts.
pub proof fn lemma_unknown_wire_types_end_a_message(
    number: u64,
    kind: u64,
    rest: Seq<u8>,
    asked: u64,
)
    requires
        is_field_number(number),
        kind == 3 || kind == 4 || kind == 6 || kind == 7,
    ensures
        message_in(varint_of((number * 8 + kind) as nat) + rest, asked) is None,
        varint_in(varint_of((number * 8 + kind) as nat) + rest, asked) is None,
{
    let tag = (number * 8 + kind) as u64;
    lemma_varints_read_back(Seq::empty(), tag, rest);
    assert(Seq::<u8>::empty() + varint_of(tag as nat) + rest =~= varint_of(tag as nat) + rest);
}

proof fn lemma_any_varint_ends(buf: Seq<u8>, pos: int, length: nat, left: nat)
    requires
        0 <= pos,
        0 < length <= left,
        pos + length <= buf.len(),
        forall|i: int| pos <= i < pos + length - 1 ==> #[trigger] buf[i] >= 128,
        buf[pos + length - 1] < 128,
    ensures
        varint_end(buf, pos, left) == Some(pos + length),
    decreases length,
{
    if length > 1 {
        assert(buf[pos] >= 128);
        lemma_any_varint_ends(buf, pos + 1, (length - 1) as nat, (left - 1) as nat);
    }
}

/// Any bytes that go on up to a last one are a varint, ten at most: the number that their lower
/// seven bits write, the least significant first, of which 64 bits are kept.
pub proof fn lemma_any_varint_is_read(before: Seq<u8>, bytes: Seq<u8>, behind: Seq<u8>)
    requires
        0 < bytes.len() <= 10,
        forall|i: int| 0 <= i < bytes.len() - 1 ==> #[trigger] bytes[i] >= 128,
        bytes.last() < 128,
    ensures
        varint_at(before + bytes + behind, before.len() as int) == Some(
            (
                (base128(bytes) % 0x1_0000_0000_0000_0000) as u64,
                (before.len() + bytes.len()) as int,
            ),
        ),
        base128(bytes) == bytes[0] % 128 + 128 * base128(bytes.drop_first()),
        base128(Seq::empty()) == 0,
{
    let buf = before + bytes + behind;
    let pos = before.len() as int;
    assert forall|i: int| pos <= i < pos + bytes.len() - 1 implies #[trigger] buf[i] >= 128 by {
        assert(buf[i] == bytes[i - pos]);
    }
    assert(buf[pos + bytes.len() - 1] == bytes.last());
    lemma_any_varint_ends(buf, pos, bytes.len(), 10);
    assert(buf.subrange(pos, pos + bytes.len()) =~= bytes);
    lemma_base128_first(bytes[0], bytes.drop_first());
    assert(seq![bytes[0]] + bytes.drop_first() =~= bytes);
}

} // verus!
