//! Big-endian integers and comparison of byte sequences.

use vstd::prelude::*;

verus! {

/// The `width` low-order bytes of `value`, most significant byte first.
pub open spec fn be_bytes(value: int, width: nat) -> Seq<u8>
    decreases width,
{
    if width == 0 {
        Seq::empty()
    } else {
        be_bytes(value / 256, (width - 1) as nat).push((value % 256) as u8)
    }
}

/// The number that `bytes` spell, most significant byte first.
pub open spec fn be_value(bytes: Seq<u8>) -> int
    decreases bytes.len(),
{
    if bytes.len() == 0 {
        0
    } else {
        be_value(bytes.drop_last()) * 256 + bytes.last()
    }
}

/// How many values `width` bytes can spell.
pub open spec fn be_limit(width: nat) -> int
    decreases width,
{
    if width == 0 {
        1
    } else {
        256 * be_limit((width - 1) as nat)
    }
}

pub broadcast proof fn lemma_be_bytes_len(value: int, width: nat)
    ensures
        (#[trigger] be_bytes(value, width)).len() == width,
    decreases width,
{
    if width > 0 {
        lemma_be_bytes_len(value / 256, (width - 1) as nat);
    }
}

pub proof fn lemma_be_value_bound(bytes: Seq<u8>)
    ensures
        0 <= be_value(bytes) < be_limit(bytes.len()),
    decreases bytes.len(),
{
    if bytes.len() > 0 {
        lemma_be_value_bound(bytes.drop_last());
    }
}

/// Reading back what was written gives the number that was written.
pub proof fn lemma_be_value_of_be_bytes(value: int, width: nat)
    requires
        0 <= value < be_limit(width),
    ensures
        be_value(be_bytes(value, width)) == value,
    decreases width,
{
    if width > 0 {
        let shorter = be_bytes(value / 256, (width - 1) as nat);
        lemma_be_value_of_be_bytes(value / 256, (width - 1) as nat);
        assert(be_bytes(value, width).drop_last() =~= shorter);
    }
}

/// Writing what was read gives back the bytes that were read.
pub proof fn lemma_be_bytes_of_be_value(bytes: Seq<u8>)
    ensures
        be_bytes(be_value(bytes), bytes.len()) == bytes,
    decreases bytes.len(),
{
    if bytes.len() > 0 {
        let front = bytes.drop_last();
        lemma_be_bytes_of_be_value(front);
        assert(be_value(bytes) / 256 == be_value(front));
        assert(be_value(bytes) % 256 == bytes.last());
        assert(be_bytes(be_value(bytes), bytes.len()) =~= bytes);
    } else {
        assert(be_bytes(be_value(bytes), 0) =~= bytes);
    }
}

/// The low-order bytes of a number do not change when a multiple of their range is added.
pub proof fn lemma_be_bytes_wraps(value: int, width: nat)
    ensures
        be_bytes(value + be_limit(width), width) == be_bytes(value, width),
    decreases width,
{
    if width > 0 {
        let step = be_limit((width - 1) as nat);
        lemma_be_bytes_wraps(value / 256, (width - 1) as nat);
        assert((value + 256 * step) / 256 == value / 256 + step);
        assert((value + 256 * step) % 256 == value % 256);
    }
}

/// The number that `bytes` spell in two's complement.
pub open spec fn be_signed_value(bytes: Seq<u8>) -> int {
    if 2 * be_value(bytes) >= be_limit(bytes.len()) {
        be_value(bytes) - be_limit(bytes.len())
    } else {
        be_value(bytes)
    }
}

/// Reading back what was written in two's complement gives the number that was written.
pub proof fn lemma_be_signed_value_of_be_bytes(value: int, width: nat)
    requires
        width > 0,
        -be_limit(width) <= 2 * value < be_limit(width),
    ensures
        be_signed_value(be_bytes(value, width)) == value,
{
    lemma_be_bytes_len(value, width);
    lemma_be_limit_monotonic(0, width);
    if value >= 0 {
        lemma_be_value_of_be_bytes(value, width);
    } else {
        lemma_be_bytes_wraps(value, width);
        lemma_be_value_of_be_bytes(value + be_limit(width), width);
    }
}

pub proof fn lemma_be_limits()
    ensures
        be_limit(2) == 0x1_0000,
        be_limit(8) == 0x1_0000_0000_0000_0000,
        be_limit(16) == 0x1_0000_0000_0000_0000_0000_0000_0000_0000,
{
    reveal_with_fuel(be_limit, 17);
}

pub proof fn lemma_be_limit_monotonic(narrow: nat, wide: nat)
    requires
        narrow <= wide,
    ensures
        0 < be_limit(narrow) <= be_limit(wide),
    decreases wide,
{
    if narrow < wide {
        lemma_be_limit_monotonic(narrow, (wide - 1) as nat);
    } else if wide > 0 {
        lemma_be_limit_monotonic((narrow - 1) as nat, (wide - 1) as nat);
    }
}

/// Appends the `width` low-order bytes of `value`.
pub fn push_be(out: &mut Vec<u8>, value: u128, width: usize)
    ensures
        final(out)@ == old(out)@ + be_bytes(value as int, width as nat),
    decreases width,
{
    if width > 0 {
        push_be(out, value / 256, width - 1);
        out.push((value % 256) as u8);
        assert(out@ =~= old(out)@ + be_bytes(value as int, width as nat));
    } else {
        assert(out@ =~= old(out)@ + be_bytes(value as int, 0));
    }
}

/// Reads the number that `bytes[start..end]` spells.
pub fn read_be(bytes: &[u8], start: usize, end: usize) -> (value: u128)
    requires
        start <= end <= bytes@.len(),
        end - start <= 16,
    ensures
        value == be_value(bytes@.subrange(start as int, end as int)),
        value < be_limit((end - start) as nat),
{
    let mut value: u128 = 0;
    let mut index: usize = start;
    assert(bytes@.subrange(start as int, start as int) =~= Seq::empty());
    while index < end
        invariant
            start <= index <= end <= bytes@.len(),
            end - start <= 16,
            value == be_value(bytes@.subrange(start as int, index as int)),
        decreases end - index,
    {
        let ghost next = bytes@.subrange(start as int, index + 1);
        proof {
            assert(next.drop_last() =~= bytes@.subrange(start as int, index as int));
            lemma_be_value_bound(next);
            lemma_be_limit_monotonic(next.len(), 16);
            lemma_be_limits();
        }
        value = value * 256 + bytes[index] as u128;
        index = index + 1;
    }
    proof {
        lemma_be_value_bound(bytes@.subrange(start as int, end as int));
    }
    value
}

/// Appends the eight bytes of `value` in two's complement.
pub fn push_be_i64(out: &mut Vec<u8>, value: i64)
    ensures
        final(out)@ == old(out)@ + be_bytes(value as int, 8),
{
    proof {
        lemma_be_limits();
        lemma_be_bytes_wraps(value as int, 8);
    }
    if value >= 0 {
        push_be(out, value as u128, 8);
    } else {
        let wrapped: i128 = value as i128 + 0x1_0000_0000_0000_0000;
        push_be(out, wrapped as u128, 8);
    }
}

/// Reads the number that the eight bytes from `start` spell in two's complement.
pub fn read_be_i64(bytes: &[u8], start: usize) -> (value: i64)
    requires
        start + 8 <= bytes@.len(),
    ensures
        value == be_signed_value(bytes@.subrange(start as int, start + 8)),
{
    assert(bytes.len() == bytes@.len());
    let raw: u128 = read_be(bytes, start, start + 8);
    proof {
        lemma_be_limits();
    }
    if raw >= 0x8000_0000_0000_0000 {
        let wrapped: i128 = raw as i128 - 0x1_0000_0000_0000_0000;
        wrapped as i64
    } else {
        raw as i64
    }
}

/// Whether `bytes[start..]` begins with `expected`.
pub fn matches_at(bytes: &[u8], start: usize, expected: &[u8]) -> (r: bool)
    requires
        start + expected@.len() <= bytes@.len(),
    ensures
        r <==> bytes@.subrange(start as int, start + expected@.len()) == expected@,
{
    let available: usize = bytes.len();
    let mut index: usize = 0;
    while index < expected.len()
        invariant
            index <= expected@.len(),
            start + expected@.len() <= bytes@.len() == available,
            forall|k: int| 0 <= k < index ==> bytes@[start + k] == expected@[k],
        decreases expected@.len() - index,
    {
        if bytes[start + index] != expected[index] {
            assert(bytes@.subrange(start as int, start + expected@.len())[index as int]
                != expected@[index as int]);
            return false;
        }
        index = index + 1;
    }
    assert(bytes@.subrange(start as int, start + expected@.len()) =~= expected@);
    true
}

/// Appends all of `bytes`.
pub fn push_bytes(out: &mut Vec<u8>, bytes: &[u8])
    ensures
        final(out)@ == old(out)@ + bytes@,
{
    let mut index: usize = 0;
    while index < bytes.len()
        invariant
            index <= bytes@.len(),
            out@ == old(out)@ + bytes@.subrange(0, index as int),
        decreases bytes@.len() - index,
    {
        out.push(bytes[index]);
        index = index + 1;
        assert(out@ =~= old(out)@ + bytes@.subrange(0, index as int));
    }
    assert(bytes@.subrange(0, index as int) =~= bytes@);
}

/// A copy of `bytes[start..end]`.
pub fn copy_range(bytes: &[u8], start: usize, end: usize) -> (copy: Vec<u8>)
    requires
        start <= end <= bytes@.len(),
    ensures
        copy@ == bytes@.subrange(start as int, end as int),
{
    let mut copy: Vec<u8> = Vec::new();
    push_bytes(&mut copy, vstd::slice::slice_subrange(bytes, start, end));
    assert(copy@ =~= bytes@.subrange(start as int, end as int));
    copy
}

} // verus!
