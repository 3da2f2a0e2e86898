//! Paths as byte strings, with the rules of Unix.
use vstd::prelude::*;

verus! {

/// The byte of a slash.
pub const SLASH: u8 = 0x2f;

/// Whether a path starts at the root.
pub open spec fn is_absolute(path: Seq<u8>) -> bool {
    path.len() > 0 && path[0] == SLASH
}

/// A path below a base. An absolute path stands for itself, and a slash parts the two unless the
/// base is empty or ends in one.
pub open spec fn joined(base: Seq<u8>, path: Seq<u8>) -> Seq<u8> {
    if is_absolute(path) {
        path
    } else if base.len() == 0 || base.last() == SLASH {
        base + path
    } else {
        base.push(SLASH) + path
    }
}

/// Appends bytes.
pub fn push_bytes(buffer: &mut Vec<u8>, bytes: &[u8])
    ensures
        final(buffer)@ == old(buffer)@ + bytes@,
{
    let ghost before = buffer@;
    let mut i: usize = 0;
    assert(before + bytes@.take(0) =~= before);
    while i < bytes.len()
        invariant
            i <= bytes@.len(),
            buffer@ == before + bytes@.take(i as int),
        decreases bytes@.len() - i,
    {
        buffer.push(bytes[i]);
        i = i + 1;
        assert(bytes@.take(i as int) =~= bytes@.take(i - 1).push(bytes@[i - 1]));
        assert(before + bytes@.take(i as int) =~= (before + bytes@.take(i - 1)).push(
            bytes@[i - 1],
        ));
    }
    assert(bytes@.take(i as int) =~= bytes@);
}

/// Joins a path to a base.
pub fn join(base: &[u8], path: &[u8]) -> (result: Vec<u8>)
    ensures
        result@ == joined(base@, path@),
{
    let mut result: Vec<u8> = Vec::new();
    if path.len() > 0 && path[0] == SLASH {
        push_bytes(&mut result, path);
        assert(result@ =~= path@);
        return result;
    }
    push_bytes(&mut result, base);
    assert(result@ =~= base@);
    if base.len() > 0 && base[base.len() - 1] != SLASH {
        result.push(SLASH);
    }
    push_bytes(&mut result, path);
    result
}

/// A path that does not depend on the working directory: parts such as `..` stay as they are.
pub fn fully_qualified(base: &[u8], path: &[u8]) -> (result: Vec<u8>)
    ensures
        result@ == joined(base@, path@),
        is_absolute(path@) ==> result@ == path@,
        is_absolute(base@) ==> is_absolute(result@),
{
    join(base, path)
}

/// A path below an absolute base is absolute.
pub proof fn lemma_joined_absolute(base: Seq<u8>, path: Seq<u8>)
    requires
        is_absolute(base),
    ensures
        is_absolute(joined(base, path)),
{
}

/// An optional path as bytes.
pub open spec fn path_of(path: Option<Vec<u8>>) -> Option<Seq<u8>> {
    match path {
        Some(path) => Some(path@),
        None => None,
    }
}

/// A copy of bytes.
pub fn copy_bytes(bytes: &[u8]) -> (copy: Vec<u8>)
    ensures
        copy@ == bytes@,
{
    vstd::slice::slice_to_vec(bytes)
}

/// A copy of an optional path.
pub fn copy_path(path: &Option<Vec<u8>>) -> (copy: Option<Vec<u8>>)
    ensures
        path_of(copy) == path_of(*path),
{
    match path {
        Some(path) => Some(copy_bytes(path.as_slice())),
        None => None,
    }
}

/// A number in decimal digits.
pub open spec fn decimal(value: nat) -> Seq<u8>
    decreases value,
{
    if value < 10 {
        seq![(0x30 + value) as u8]
    } else {
        decimal(value / 10).push((0x30 + value % 10) as u8)
    }
}

/// Writes a number in decimal digits.
pub fn push_decimal(buffer: &mut Vec<u8>, value: u32)
    ensures
        final(buffer)@ == old(buffer)@ + decimal(value as nat),
    decreases value,
{
    let ghost before = buffer@;
    if value >= 10 {
        push_decimal(buffer, value / 10);
    }
    buffer.push(0x30 + (value % 10) as u8);
    assert(buffer@ =~= before + decimal(value as nat));
}

/// A relative path stands behind its base with one slash between them, or with none where the
/// base is empty or ends in one. An absolute path stands for itself.
pub proof fn lemma_joined_paths(base: Seq<u8>, path: Seq<u8>)
    ensures
        path.len() > 0 && path[0] == 0x2f ==> joined(base, path) == path,
        !(path.len() > 0 && path[0] == 0x2f) ==> {
            &&& base.len() == 0 ==> joined(base, path) == path
            &&& base.len() > 0 && base.last() == 0x2f ==> joined(base, path) == base + path
            &&& base.len() > 0 && base.last() != 0x2f ==> joined(base, path) == base + seq![0x2fu8]
                + path
        },
{
    if base.len() == 0 {
        assert(base + path =~= path);
    }
    assert(base.push(0x2fu8) =~= base + seq![0x2fu8]);
}

/// The number that decimal digits write.
pub open spec fn number_of(digits: Seq<u8>) -> int
    decreases digits.len(),
{
    if digits.len() == 0 {
        0
    } else {
        number_of(digits.drop_last()) * 10 + (digits.last() - 0x30)
    }
}

/// A number in decimal digits reads as that number, and begins with a zero only where it is zero.
pub proof fn lemma_decimal_reads_back(value: nat)
    ensures
        number_of(decimal(value)) == value,
        decimal(value).len() > 0,
        forall|i: int|
            0 <= i < decimal(value).len() ==> 0x30 <= #[trigger] decimal(value)[i] <= 0x39,
        decimal(value)[0] == 0x30 <==> value == 0,
    decreases value,
{
    let digits = decimal(value);
    if value < 10 {
        assert(digits.drop_last() =~= Seq::<u8>::empty());
        assert(number_of(digits.drop_last()) == 0);
    } else {
        lemma_decimal_reads_back(value / 10);
        assert(digits.drop_last() =~= decimal(value / 10));
        assert(digits[0] == decimal(value / 10)[0]);
    }
}

} // verus!
