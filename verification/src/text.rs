//! Text helpers: UTF-8 decoding and white space.
use unicode_normalization::UnicodeNormalization;
use vstd::prelude::*;
use vstd::utf8::*;

use crate::ordered::same_text;

verus! {

/// The characters with the Unicode property `White_Space`.
pub open spec fn is_white_space(c: char) -> bool {
    ||| 0x9 <= c as u32 <= 0xd
    ||| c as u32 == 0x20
    ||| c as u32 == 0x85
    ||| c as u32 == 0xa0
    ||| c as u32 == 0x1680
    ||| 0x2000 <= c as u32 <= 0x200a
    ||| c as u32 == 0x2028
    ||| c as u32 == 0x2029
    ||| c as u32 == 0x202f
    ||| c as u32 == 0x205f
    ||| c as u32 == 0x3000
}

/// A text without its leading white space.
pub open spec fn trimmed_start(text: Seq<char>) -> Seq<char>
    decreases text.len(),
{
    if text.len() > 0 && is_white_space(text.first()) {
        trimmed_start(text.drop_first())
    } else {
        text
    }
}

/// A text without its trailing white space.
pub open spec fn trimmed_end(text: Seq<char>) -> Seq<char>
    decreases text.len(),
{
    if text.len() > 0 && is_white_space(text.last()) {
        trimmed_end(text.drop_last())
    } else {
        text
    }
}

/// A text without leading and trailing white space.
pub open spec fn trimmed(text: Seq<char>) -> Seq<char> {
    trimmed_end(trimmed_start(text))
}

/// What remains of an ASCII text without white space around it is ASCII, and not longer.
pub proof fn lemma_trimmed_ascii(text: Seq<char>)
    requires
        is_ascii_chars(text),
    ensures
        is_ascii_chars(trimmed(text)),
        trimmed(text).len() <= text.len(),
{
    lemma_trimmed_start_ascii(text);
    lemma_trimmed_end_ascii(trimmed_start(text));
}

proof fn lemma_trimmed_start_ascii(text: Seq<char>)
    requires
        is_ascii_chars(text),
    ensures
        is_ascii_chars(trimmed_start(text)),
        trimmed_start(text).len() <= text.len(),
    decreases text.len(),
{
    if text.len() > 0 && is_white_space(text.first()) {
        lemma_trimmed_start_ascii(text.drop_first());
    }
}

proof fn lemma_trimmed_end_ascii(text: Seq<char>)
    requires
        is_ascii_chars(text),
    ensures
        is_ascii_chars(trimmed_end(text)),
        trimmed_end(text).len() <= text.len(),
    decreases text.len(),
{
    if text.len() > 0 && is_white_space(text.last()) {
        lemma_trimmed_end_ascii(text.drop_last());
    }
}

/// What stands before and behind the first occurrence of a character.
pub open spec fn split_first(text: Seq<char>, delimiter: char) -> Option<(Seq<char>, Seq<char>)>
    decreases text.len(),
{
    if text.len() == 0 {
        None
    } else if text[0] == delimiter {
        Some((Seq::empty(), text.drop_first()))
    } else {
        match split_first(text.drop_first(), delimiter) {
            Some((before, behind)) => Some((seq![text[0]] + before, behind)),
            None => None,
        }
    }
}

/// The text that bytes decode to when every maximal ill-formed part is replaced by U+FFFD.
pub uninterp spec fn lossy_text(bytes: Seq<u8>) -> Seq<char>;

/// A text in Unicode Normalization Form C.
pub uninterp spec fn nfc_form(text: Seq<char>) -> Seq<char>;

/// `UnicodeNormalization::nfc`: the text in Normalization Form C, which leaves an ASCII text as
/// it is.
#[verifier::external_body]
pub(crate) fn nfc_text(text: &str) -> (normal: String)
    ensures
        normal@ == nfc_form(text@),
        is_ascii_chars(text@) ==> normal@ == text@,
{
    text.nfc().collect()
}

/// Whether a text is in Normalization Form C.
pub fn is_nfc(text: &str) -> (normal: bool)
    ensures
        normal == (nfc_form(text@) == text@),
        is_ascii_chars(text@) ==> normal,
{
    same_text(nfc_text(text).as_str(), text)
}

/// `std::str::from_utf8`: the text that the bytes encode, exactly when they are valid UTF-8.
#[verifier::external_body]
pub(crate) fn utf8_text(bytes: &[u8]) -> (text: Option<&str>)
    ensures
        text is Some <==> valid_utf8(bytes@),
        text matches Some(t) ==> t@ == decode_utf8(bytes@),
{
    std::str::from_utf8(bytes).ok()
}

/// `String::from_utf8_lossy`: a text that depends on the bytes alone, and that is what they
/// encode where they are valid UTF-8.
#[verifier::external_body]
pub(crate) fn utf8_lossy(bytes: &[u8]) -> (text: String)
    ensures
        text@ == lossy_text(bytes@),
        valid_utf8(bytes@) ==> text@ == decode_utf8(bytes@),
{
    String::from_utf8_lossy(bytes).into_owned()
}

/// Whether a character has the Unicode property `White_Space`.
fn white_space(c: char) -> (white: bool)
    ensures
        white == is_white_space(c),
{
    let code: u32 = c as u32;
    (0x9 <= code && code <= 0xd) || code == 0x20 || code == 0x85 || code == 0xa0 || code == 0x1680
        || (0x2000 <= code && code <= 0x200a) || code == 0x2028 || code == 0x2029 || code == 0x202f
        || code == 0x205f || code == 0x3000
}

/// The text without leading and trailing white space.
pub fn trim(text: &str) -> (inner: &str)
    ensures
        inner@ == trimmed(text@),
{
    let length: usize = text.unicode_len();
    let mut from: usize = 0;
    assert(text@.skip(0) =~= text@);
    while from < length && white_space(text.get_char(from))
        invariant
            length == text@.len(),
            from <= length,
            trimmed_start(text@) == trimmed_start(text@.skip(from as int)),
        decreases length - from,
    {
        assert(text@.skip(from as int).drop_first() =~= text@.skip(from + 1));
        from = from + 1;
    }
    let mut to: usize = length;
    assert(trimmed_start(text@) =~= text@.subrange(from as int, to as int));
    while from < to && white_space(text.get_char(to - 1))
        invariant
            length == text@.len(),
            from <= to <= length,
            trimmed(text@) == trimmed_end(text@.subrange(from as int, to as int)),
        decreases to,
    {
        assert(text@.subrange(from as int, to as int).drop_last() =~= text@.subrange(
            from as int,
            to - 1,
        ));
        to = to - 1;
    }
    text.substring_char(from, to)
}

proof fn lemma_split_first(text: Seq<char>, delimiter: char, at: int)
    requires
        0 <= at <= text.len(),
        forall|i: int| 0 <= i < at ==> text[i] != delimiter,
        at < text.len() ==> text[at] == delimiter,
    ensures
        split_first(text, delimiter) == (if at < text.len() {
            Some((text.take(at), text.skip(at + 1)))
        } else {
            None
        }),
    decreases at,
{
    if at > 0 {
        let tail = text.drop_first();
        lemma_split_first(tail, delimiter, at - 1);
        if at < text.len() {
            assert(seq![text[0]] + tail.take(at - 1) =~= text.take(at));
            assert(tail.skip(at) =~= text.skip(at + 1));
        }
    } else if text.len() > 0 {
        assert(text.take(0) =~= Seq::<char>::empty());
        assert(text.drop_first() =~= text.skip(1));
    }
}

/// What stands before and behind the first occurrence of the delimiter.
pub fn split_once(text: &str, delimiter: char) -> (parts: Option<(&str, &str)>)
    ensures
        match parts {
            Some((before, behind)) => split_first(text@, delimiter) == Some((before@, behind@)),
            None => split_first(text@, delimiter) is None,
        },
{
    let length: usize = text.unicode_len();
    let mut at: usize = 0;
    while at < length && text.get_char(at) != delimiter
        invariant
            length == text@.len(),
            at <= length,
            forall|i: int| 0 <= i < at ==> text@[i] != delimiter,
        decreases length - at,
    {
        at = at + 1;
    }
    proof {
        lemma_split_first(text@, delimiter, at as int);
        assert(at < length ==> text@.take(at as int) =~= text@.subrange(0, at as int));
        assert(at < length ==> text@.skip(at + 1) =~= text@.subrange(at + 1, length as int));
    }
    if at < length {
        Some((text.substring_char(0, at), text.substring_char(at + 1, length)))
    } else {
        None
    }
}

/// Whether a text holds nothing but white space.
pub fn is_blank(text: &str) -> (blank: bool)
    ensures
        blank == (trimmed(text@).len() == 0),
{
    let inner = trim(text);
    inner.is_empty()
}

// ---------------------------------------------------------------------------
// Laws
// ---------------------------------------------------------------------------
/// White space is what Unicode calls so: these 25 characters and no others.
pub proof fn lemma_white_space(c: char)
    ensures
        is_white_space(c) <==> seq![
            '\u{9}', '\u{a}', '\u{b}', '\u{c}', '\u{d}', ' ', '\u{85}', '\u{a0}', '\u{1680}',
            '\u{2000}', '\u{2001}', '\u{2002}', '\u{2003}', '\u{2004}', '\u{2005}', '\u{2006}',
            '\u{2007}', '\u{2008}', '\u{2009}', '\u{200a}', '\u{2028}', '\u{2029}', '\u{202f}',
            '\u{205f}', '\u{3000}',
        ].contains(c),
{
    let all = seq![
        '\u{9}', '\u{a}', '\u{b}', '\u{c}', '\u{d}', ' ', '\u{85}', '\u{a0}', '\u{1680}',
        '\u{2000}', '\u{2001}', '\u{2002}', '\u{2003}', '\u{2004}', '\u{2005}', '\u{2006}',
        '\u{2007}', '\u{2008}', '\u{2009}', '\u{200a}', '\u{2028}', '\u{2029}', '\u{202f}',
        '\u{205f}', '\u{3000}',
    ];
    assert forall|i: int| 0 <= i < all.len() implies is_white_space(#[trigger] all[i]) by {}
    if is_white_space(c) {
        let code = c as u32;
        let at = if code <= 0xd {
            code - 9
        } else if code == 0x20 {
            5
        } else if code == 0x85 {
            6
        } else if code == 0xa0 {
            7
        } else if code == 0x1680 {
            8
        } else if code <= 0x200a {
            code - 0x2000 + 9
        } else if code == 0x2028 {
            20
        } else if code == 0x2029 {
            21
        } else if code == 0x202f {
            22
        } else if code == 0x205f {
            23
        } else {
            24int
        };
        assert(all[at] == c);
    }
}

proof fn lemma_trimmed_start_parts(text: Seq<char>)
    ensures
        ({
            let rest = trimmed_start(text);
            let cut = text.len() - rest.len();
            &&& 0 <= cut <= text.len()
            &&& rest == text.skip(cut)
            &&& forall|i: int| 0 <= i < cut ==> is_white_space(#[trigger] text[i])
            &&& rest.len() > 0 ==> !is_white_space(rest[0])
        }),
    decreases text.len(),
{
    if text.len() > 0 && is_white_space(text.first()) {
        let tail = text.drop_first();
        lemma_trimmed_start_parts(tail);
        let cut = text.len() - trimmed_start(text).len();
        assert(tail.skip(cut - 1) =~= text.skip(cut));
        assert forall|i: int| 0 <= i < cut implies is_white_space(#[trigger] text[i]) by {
            if i > 0 {
                assert(tail[i - 1] == text[i]);
            }
        }
    } else {
        assert(text.skip(0) =~= text);
    }
}

proof fn lemma_trimmed_end_parts(text: Seq<char>)
    ensures
        ({
            let rest = trimmed_end(text);
            &&& rest.len() <= text.len()
            &&& rest == text.take(rest.len() as int)
            &&& forall|i: int| rest.len() <= i < text.len() ==> is_white_space(#[trigger] text[i])
            &&& rest.len() > 0 ==> !is_white_space(rest[rest.len() - 1])
        }),
    decreases text.len(),
{
    if text.len() > 0 && is_white_space(text.last()) {
        let front = text.drop_last();
        lemma_trimmed_end_parts(front);
        let rest = trimmed_end(text);
        assert(front.take(rest.len() as int) =~= text.take(rest.len() as int));
        assert forall|i: int| rest.len() <= i < text.len() implies is_white_space(
            #[trigger] text[i],
        ) by {
            if i < front.len() {
                assert(front[i] == text[i]);
            }
        }
    } else {
        assert(text.take(text.len() as int) =~= text);
    }
}

/// Trimming takes white space from both ends and nothing else: what is left neither begins nor
/// ends with white space, and stands in the text between white space.
pub proof fn lemma_trimmed_parts(text: Seq<char>) -> (parts: (Seq<char>, Seq<char>))
    ensures
        text == parts.0 + trimmed(text) + parts.1,
        forall|i: int| 0 <= i < parts.0.len() ==> is_white_space(#[trigger] parts.0[i]),
        forall|i: int| 0 <= i < parts.1.len() ==> is_white_space(#[trigger] parts.1[i]),
        trimmed(text).len() > 0 ==> !is_white_space(trimmed(text)[0]) && !is_white_space(
            trimmed(text)[trimmed(text).len() - 1],
        ),
{
    let tail = trimmed_start(text);
    let inner = trimmed(text);
    lemma_trimmed_start_parts(text);
    lemma_trimmed_end_parts(tail);
    let cut = text.len() - tail.len();
    let before = text.take(cut);
    let behind = tail.skip(inner.len() as int);
    assert(text =~= before + inner + behind);
    assert forall|i: int| 0 <= i < before.len() implies is_white_space(#[trigger] before[i]) by {
        assert(before[i] == text[i]);
    }
    assert forall|i: int| 0 <= i < behind.len() implies is_white_space(#[trigger] behind[i]) by {
        assert(behind[i] == tail[inner.len() + i]);
    }
    (before, behind)
}

/// A text is blank where every character of it is white space.
pub proof fn lemma_blank(text: Seq<char>)
    ensures
        trimmed(text).len() == 0 <==> forall|i: int|
            0 <= i < text.len() ==> is_white_space(#[trigger] text[i]),
{
    let (before, behind) = lemma_trimmed_parts(text);
    if trimmed(text).len() == 0 {
        assert(text =~= before + behind);
        assert forall|i: int| 0 <= i < text.len() implies is_white_space(#[trigger] text[i]) by {
            if i < before.len() {
                assert(text[i] == before[i]);
            } else {
                assert(text[i] == behind[i - before.len()]);
            }
        }
    } else {
        assert(text[before.len() as int] == trimmed(text)[0]);
    }
}

/// Splitting is undone by joining: the parts and the delimiter between them are the text, and
/// the first part holds no delimiter. A text without the delimiter is not split.
pub proof fn lemma_split_parts(text: Seq<char>, delimiter: char)
    ensures
        match split_first(text, delimiter) {
            Some((before, behind)) => text == before.push(delimiter) + behind && !before.contains(
                delimiter,
            ),
            None => !text.contains(delimiter),
        },
    decreases text.len(),
{
    if text.len() > 0 && text[0] != delimiter {
        let tail = text.drop_first();
        lemma_split_parts(tail, delimiter);
        match split_first(tail, delimiter) {
            Some((before, behind)) => {
                let all = seq![text[0]] + before;
                assert(text =~= seq![text[0]] + tail);
                assert(text =~= all.push(delimiter) + behind);
                if all.contains(delimiter) {
                    let i = all.index_of(delimiter);
                    assert(before[i - 1] == delimiter);
                }
            },
            None => {
                if text.contains(delimiter) {
                    let i = text.index_of(delimiter);
                    assert(tail[i - 1] == delimiter);
                }
            },
        }
    } else if text.len() > 0 {
        assert(text =~= Seq::<char>::empty().push(delimiter) + text.drop_first());
    }
}

} // verus!
