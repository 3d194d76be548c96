//! Little-endian integers in byte strings.

use vstd::prelude::*;

verus! {

/// The 16-bit number at `offset`, least significant byte first.
pub open spec fn word16(data: Seq<u8>, offset: int) -> int {
    data[offset] + 256 * data[offset + 1]
}

/// The 32-bit number at `offset`, least significant byte first.
pub open spec fn word32(data: Seq<u8>, offset: int) -> int {
    word16(data, offset) + 0x1_0000 * word16(data, offset + 2)
}

/// The bytes of a 16-bit number, least significant first.
pub open spec fn bytes16(value: u16) -> Seq<u8> {
    seq![(value % 256) as u8, (value / 256) as u8]
}

/// The `count` lowest bytes of a number, least significant first.
pub open spec fn le_bytes(value: nat, count: nat) -> Seq<u8>
    decreases count,
{
    if count == 0 {
        Seq::empty()
    } else {
        seq![(value % 256) as u8] + le_bytes(value / 256, (count - 1) as nat)
    }
}

/// Appends the `count` lowest bytes of a number, least significant first.
pub fn push_le(buffer: &mut Vec<u8>, value: u128, count: usize)
    ensures
        final(buffer)@ == old(buffer)@ + le_bytes(value as nat, count as nat),
{
    let ghost before = buffer@;
    let mut rest: u128 = value;
    let mut done: usize = 0;
    assert(buffer@ + le_bytes(value as nat, count as nat) =~= before + le_bytes(
        value as nat,
        count as nat,
    ));
    while done < count
        invariant
            done <= count,
            buffer@ + le_bytes(rest as nat, (count - done) as nat) =~= before + le_bytes(
                value as nat,
                count as nat,
            ),
        decreases count - done,
    {
        let ghost current = buffer@;
        let ghost all = le_bytes(rest as nat, (count - done) as nat);
        buffer.push((rest % 256) as u8);
        rest = rest / 256;
        done += 1;
        assert(buffer@ + le_bytes(rest as nat, (count - done) as nat) =~= current + all);
    }
    assert(le_bytes(rest as nat, 0) =~= Seq::<u8>::empty());
}

/// Reads a 16-bit number.
pub fn get16(data: &[u8], offset: usize) -> (result: u16)
    requires
        offset + 2 <= data@.len(),
    ensures
        result == word16(data@, offset as int),
{
    let len: usize = data.len();
    data[offset] as u16 + 256 * data[offset + 1] as u16
}

/// Reads a 32-bit number.
pub fn get32(data: &[u8], offset: usize) -> (result: u32)
    requires
        offset + 4 <= data@.len(),
    ensures
        result == word32(data@, offset as int),
{
    let len: usize = data.len();
    get16(data, offset) as u32 + 0x1_0000 * get16(data, offset + 2) as u32
}

/// Writes a 16-bit number and leaves the other bytes as they were.
pub fn put16(buffer: &mut Vec<u8>, offset: usize, value: u16)
    requires
        offset + 2 <= old(buffer)@.len(),
    ensures
        final(buffer)@.len() == old(buffer)@.len(),
        word16(final(buffer)@, offset as int) == value,
        forall|i: int|
            0 <= i < old(buffer)@.len() && !(offset <= i < offset + 2) ==> #[trigger] final(buffer)@[i] == old(buffer)@[i],
{
    let len: usize = buffer.len();
    buffer.set(offset, (value % 256) as u8);
    buffer.set(offset + 1, (value / 256) as u8);
}

/// Writes a 32-bit number and leaves the other bytes as they were.
pub fn put32(buffer: &mut Vec<u8>, offset: usize, value: u32)
    requires
        offset + 4 <= old(buffer)@.len(),
    ensures
        final(buffer)@.len() == old(buffer)@.len(),
        word32(final(buffer)@, offset as int) == value,
        forall|i: int|
            0 <= i < old(buffer)@.len() && !(offset <= i < offset + 4) ==> #[trigger] final(buffer)@[i] == old(buffer)@[i],
{
    let len: usize = buffer.len();
    put16(buffer, offset, (value % 0x1_0000) as u16);
    put16(buffer, offset + 2, (value / 0x1_0000) as u16);
}

} // verus!
