//! The stored form of the spool's checkpoint.

use vstd::prelude::*;

use crate::codec::{
    be_bytes, be_value, lemma_be_bytes_len, lemma_be_bytes_of_be_value, lemma_be_limits,
    lemma_be_value_bound, lemma_be_value_of_be_bytes, matches_at, push_be, push_bytes, read_be,
};
use crate::digest::{blake3_digest, digest};
use crate::ingestion::error::{SpoolCorruption, SpoolError};
use crate::ingestion::model::SpoolCheckpoint;

verus! {

pub const CHECKPOINT_VERSION: u16 = 1;

pub const CHECKPOINT_PREFIX_BYTES: usize = 20;

pub const CHECKPOINT_BYTES: usize = 52;

/// `ELUCKP01`, with which a stored checkpoint begins.
pub open spec fn checkpoint_magic() -> Seq<u8> {
    seq![69u8, 76u8, 85u8, 67u8, 75u8, 80u8, 48u8, 49u8]
}

fn checkpoint_magic_bytes() -> (r: [u8; 8])
    ensures
        r@ == checkpoint_magic(),
{
    let bytes: [u8; 8] = [69u8, 76u8, 85u8, 67u8, 75u8, 80u8, 48u8, 49u8];
    assert(bytes@ =~= checkpoint_magic());
    bytes
}

/// The part of a stored checkpoint that its digest covers.
pub open spec fn checkpoint_prefix(position: u64) -> Seq<u8> {
    checkpoint_magic() + be_bytes(CHECKPOINT_VERSION as int, 2) + be_bytes(
        CHECKPOINT_BYTES as int,
        2,
    ) + be_bytes(position as int, 8)
}

/// The stored form of a checkpoint.
pub open spec fn checkpoint_bytes(position: u64) -> Seq<u8> {
    checkpoint_prefix(position) + blake3_digest(checkpoint_prefix(position))@
}

/// The first thing that keeps `bytes` from being a stored checkpoint.
pub open spec fn checkpoint_fault(bytes: Seq<u8>) -> Option<SpoolCorruption> {
    if bytes.len() != CHECKPOINT_BYTES {
        Some(SpoolCorruption::CheckpointLength)
    } else if bytes.subrange(0, 8) != checkpoint_magic() {
        Some(SpoolCorruption::CheckpointMagic)
    } else if be_value(bytes.subrange(8, 10)) != CHECKPOINT_VERSION {
        Some(SpoolCorruption::CheckpointVersion)
    } else if be_value(bytes.subrange(10, 12)) != CHECKPOINT_BYTES {
        Some(SpoolCorruption::CheckpointFraming)
    } else if bytes.subrange(20, 52) != blake3_digest(bytes.subrange(0, 20))@ {
        Some(SpoolCorruption::CheckpointDigest)
    } else {
        None
    }
}

/// Writes a checkpoint.
pub fn encode(checkpoint: SpoolCheckpoint) -> (bytes: Vec<u8>)
    ensures
        bytes@ == checkpoint_bytes(checkpoint.position),
        bytes@.len() == CHECKPOINT_BYTES,
{
    broadcast use lemma_be_bytes_len;

    let mut bytes: Vec<u8> = Vec::with_capacity(CHECKPOINT_BYTES);
    push_bytes(&mut bytes, &checkpoint_magic_bytes());
    push_be(&mut bytes, CHECKPOINT_VERSION as u128, 2);
    push_be(&mut bytes, CHECKPOINT_BYTES as u128, 2);
    push_be(&mut bytes, checkpoint.position() as u128, 8);
    assert(bytes@ =~= checkpoint_prefix(checkpoint.position));
    let prefix_digest: [u8; 32] = digest(bytes.as_slice());
    push_bytes(&mut bytes, &prefix_digest);
    bytes
}

/// Reads a stored checkpoint back.
pub fn decode(bytes: &[u8]) -> (r: Result<SpoolCheckpoint, SpoolError>)
    ensures
        match r {
            Ok(checkpoint) => checkpoint_fault(bytes@) is None && checkpoint.position == be_value(
                bytes@.subrange(12, 20),
            ),
            Err(e) => checkpoint_fault(bytes@) matches Some(fault) && e
                == SpoolError::spec_corrupt(fault),
        },
{
    proof {
        lemma_be_limits();
    }
    if bytes.len() != CHECKPOINT_BYTES {
        return Err(SpoolError::corrupt(SpoolCorruption::CheckpointLength));
    }
    if !matches_at(bytes, 0, &checkpoint_magic_bytes()) {
        return Err(SpoolError::corrupt(SpoolCorruption::CheckpointMagic));
    }
    if read_be(bytes, 8, 10) != CHECKPOINT_VERSION as u128 {
        return Err(SpoolError::corrupt(SpoolCorruption::CheckpointVersion));
    }
    if read_be(bytes, 10, 12) != CHECKPOINT_BYTES as u128 {
        return Err(SpoolError::corrupt(SpoolCorruption::CheckpointFraming));
    }
    let expected: [u8; 32] = digest(
        vstd::slice::slice_subrange(bytes, 0, CHECKPOINT_PREFIX_BYTES),
    );
    if !matches_at(bytes, CHECKPOINT_PREFIX_BYTES, &expected) {
        return Err(SpoolError::corrupt(SpoolCorruption::CheckpointDigest));
    }
    Ok(SpoolCheckpoint::from_position(read_be(bytes, 12, 20) as u64))
}

/// Reading a checkpoint back gives the position that was stored.
pub proof fn checkpoint_reads_back(position: u64)
    ensures
        checkpoint_fault(checkpoint_bytes(position)) is None,
        be_value(checkpoint_bytes(position).subrange(12, 20)) == position,
{
    broadcast use lemma_be_bytes_len;

    let bytes = checkpoint_bytes(position);
    let prefix = checkpoint_prefix(position);
    lemma_be_limits();
    lemma_be_value_of_be_bytes(CHECKPOINT_VERSION as int, 2);
    lemma_be_value_of_be_bytes(CHECKPOINT_BYTES as int, 2);
    lemma_be_value_of_be_bytes(position as int, 8);
    assert(bytes.subrange(0, 8) =~= checkpoint_magic());
    assert(bytes.subrange(8, 10) =~= be_bytes(CHECKPOINT_VERSION as int, 2));
    assert(bytes.subrange(10, 12) =~= be_bytes(CHECKPOINT_BYTES as int, 2));
    assert(bytes.subrange(12, 20) =~= be_bytes(position as int, 8));
    assert(bytes.subrange(0, 20) =~= prefix);
    assert(bytes.subrange(20, 52) =~= blake3_digest(prefix)@);
}

/// Nothing is read as a checkpoint but what a checkpoint is stored as.
pub proof fn only_stored_checkpoints_are_read(bytes: Seq<u8>)
    requires
        checkpoint_fault(bytes) is None,
    ensures
        bytes == checkpoint_bytes(be_value(bytes.subrange(12, 20)) as u64),
{
    broadcast use lemma_be_bytes_len;

    let position = be_value(bytes.subrange(12, 20)) as u64;
    lemma_be_limits();
    lemma_be_value_bound(bytes.subrange(12, 20));
    lemma_be_bytes_of_be_value(bytes.subrange(8, 10));
    lemma_be_bytes_of_be_value(bytes.subrange(10, 12));
    lemma_be_bytes_of_be_value(bytes.subrange(12, 20));
    assert(bytes.subrange(0, 20) =~= bytes.subrange(0, 8) + bytes.subrange(8, 10) + bytes.subrange(
        10,
        12,
    ) + bytes.subrange(12, 20));
    assert(bytes.subrange(0, 20) =~= checkpoint_prefix(position));
    assert(bytes =~= bytes.subrange(0, 20) + bytes.subrange(20, 52));
}

} // verus!
