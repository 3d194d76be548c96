//! Pieces of a captured stream.

use vstd::prelude::*;

use crate::bits::{bit_of, packed_bit};

verus! {

/// Data encoding returned by a driver.
#[derive(Debug, Clone, Copy, PartialEq, Eq, Structural)]
pub enum LogicEncoding {
    /// Samples are least significant bit first, with enabled inputs in increasing input order.
    InterleavedLsbFirst,
    /// Device-specific encoded data.
    Opaque,
}

/// A lossless piece of a raw logic-data stream.
///
/// `bit_offset` and `bit_len` identify the valid span in `data`; they permit a driver to preserve
/// transfer boundaries that occur in the middle of a sample.
#[derive(Debug, Clone, PartialEq, Eq)]
pub struct LogicChunk {
    pub data: Vec<u8>,
    pub bit_offset: u8,
    pub bit_len: usize,
    pub channel_count: u8,
    pub start_bit: u64,
    pub encoding: LogicEncoding,
}

impl LogicChunk {
    /// The valid span lies inside the data and starts in its first byte.
    pub open spec fn wf(self) -> bool {
        &&& self.bit_offset < 8
        &&& self.bit_offset + self.bit_len <= 8 * self.data@.len()
        &&& self.bit_offset + self.bit_len <= usize::MAX
    }

    /// The valid bits in order.
    pub open spec fn levels(self) -> Seq<bool> {
        Seq::new(self.bit_len as nat, |i: int| bit_of(self.data@, self.bit_offset + i))
    }

    /// A chunk of whole bytes that start at a sample.
    pub fn interleaved(data: Vec<u8>, channel_count: u8, start_bit: u64) -> (result: Self)
        requires
            8 * data@.len() <= usize::MAX,
        ensures
            result.wf(),
            result.data@ == data@,
            result.bit_offset == 0,
            result.bit_len == 8 * data@.len(),
            result.channel_count == channel_count,
            result.start_bit == start_bit,
            result.encoding == LogicEncoding::InterleavedLsbFirst,
    {
        LogicChunk {
            bit_len: data.len() * 8,
            data,
            bit_offset: 0,
            channel_count,
            start_bit,
            encoding: LogicEncoding::InterleavedLsbFirst,
        }
    }

    /// One bit of the valid span.
    pub fn bit(&self, relative_bit: usize) -> (result: bool)
        requires
            relative_bit < self.bit_len,
            self.bit_offset + relative_bit < 8 * self.data@.len(),
            self.bit_offset + relative_bit <= usize::MAX,
        ensures
            result == self.levels()[relative_bit as int],
    {
        packed_bit(self.data.as_slice(), self.bit_offset as usize + relative_bit)
    }
}

} // verus!
