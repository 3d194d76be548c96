//! The identity under which a capture is cached.

use vstd::prelude::*;
use vstd::utf8::encode_utf8;

use crate::capture_file::metadata::{name_views, CaptureMetadata, MetadataView};
use crate::digest::{blake3_hash, digest};
use crate::little_endian::{le_bytes, push_le};

verus! {

/// What the file system says of a file.
#[derive(Debug, Clone, Copy, PartialEq, Eq)]
pub struct FileStamp {
    pub len: u64,
    /// When it was changed, in nanoseconds since the epoch, if that can be told.
    pub modified_ns: Option<u128>,
}

/// The bytes of several texts, one behind the other.
pub open spec fn joined_texts(texts: Seq<Seq<char>>) -> Seq<u8>
    decreases texts.len(),
{
    if texts.len() == 0 {
        Seq::empty()
    } else {
        joined_texts(texts.drop_last()) + encode_utf8(texts.last())
    }
}

/// The bytes of what the file system says.
pub open spec fn stamp_bytes(stamp: Option<FileStamp>) -> Seq<u8> {
    match stamp {
        Some(stamp) => le_bytes(stamp.len as nat, 8) + match stamp.modified_ns {
            Some(time) => le_bytes(time as nat, 16),
            None => Seq::empty(),
        },
        None => Seq::empty(),
    }
}

/// What tells one capture from another: its path, its revision, its sample rate as the bits of a
/// floating-point number, its size, what the file system says of it, and the names of its probes.
pub open spec fn identifying_bytes(
    path: Seq<char>,
    revision: u64,
    rate_bits: u64,
    metadata: MetadataView,
    stamp: Option<FileStamp>,
) -> Seq<u8> {
    encode_utf8(path) + le_bytes(revision as nat, 8) + le_bytes(rate_bits as nat, 8) + le_bytes(
        metadata.total_samples as nat,
        8,
    ) + le_bytes(metadata.total_probes as nat, 8) + stamp_bytes(stamp) + joined_texts(
        metadata.probe_names,
    )
}

/// Writes down what tells one capture from another.
pub fn identity_bytes(
    path: &str,
    revision: u64,
    rate_bits: u64,
    metadata: &CaptureMetadata,
    stamp: Option<FileStamp>,
) -> (result: Vec<u8>)
    ensures
        result@ == identifying_bytes(path@, revision, rate_bits, metadata@, stamp),
{
    let mut bytes: Vec<u8> = Vec::new();
    bytes.extend_from_slice(path.as_bytes());
    assert(bytes@ =~= encode_utf8(path@));
    push_le(&mut bytes, revision as u128, 8);
    push_le(&mut bytes, rate_bits as u128, 8);
    push_le(&mut bytes, metadata.total_samples as u128, 8);
    push_le(&mut bytes, metadata.total_probes as u128, 8);
    let ghost before = bytes@;
    match stamp {
        Some(stamp) => {
            push_le(&mut bytes, stamp.len as u128, 8);
            match stamp.modified_ns {
                Some(time) => {
                    push_le(&mut bytes, time, 16);
                },
                None => {},
            }
        },
        None => {},
    }
    assert(bytes@ =~= before + stamp_bytes(stamp));
    let ghost head = bytes@;
    let ghost names = name_views(metadata.probe_names@);
    let mut index: usize = 0;
    assert(names.take(0) =~= Seq::empty());
    while index < metadata.probe_names.len()
        invariant
            index <= metadata.probe_names@.len(),
            names == name_views(metadata.probe_names@),
            bytes@ =~= head + joined_texts(names.take(index as int)),
        decreases metadata.probe_names@.len() - index,
    {
        assert(names.take(index + 1).drop_last() =~= names.take(index as int));
        assert(names.take(index + 1).last() == metadata.probe_names@[index as int]@);
        bytes.extend_from_slice(metadata.probe_names[index].as_str().as_bytes());
        index += 1;
    }
    assert(names.take(index as int) =~= names);
    bytes
}

/// The identity under which a capture is cached.
pub fn capture_cache_identity(
    path: &str,
    revision: u64,
    rate_bits: u64,
    metadata: &CaptureMetadata,
    stamp: Option<FileStamp>,
) -> (result: [u8; 32])
    ensures
        result@ == blake3_hash(
            identifying_bytes(path@, revision, rate_bits, metadata@, stamp),
        ),
{
    digest(identity_bytes(path, revision, rate_bits, metadata, stamp).as_slice())
}

} // verus!
