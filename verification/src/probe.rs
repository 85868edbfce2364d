use vstd::prelude::*;

use crate::error::QueryError;
use crate::scale::{decode_storage_version, le_value};

verus! {

/// The observable state of the monitored pallet at one block: the block's
/// identity (number and hash) together with the storage-format version and
/// the migration flag read at that block.
#[derive(Debug)]
pub struct BlockInfo {
    pub block_hash: Vec<u8>,
    pub block_number: u32,
    pub version: u16,
    pub migration_in_progress: bool,
}

impl BlockInfo {
    /// A block hash is a 32-byte identifier.
    pub open spec fn wf(&self) -> bool {
        self.block_hash@.len() == 32
    }

    /// The part of a snapshot that the boundary search compares: version and
    /// migration flag.  Block number and hash are deliberately excluded.
    pub open spec fn state_pair(&self) -> (u16, bool) {
        (self.version, self.migration_in_progress)
    }

    /// Two snapshots are equivalent when version and migration flag both
    /// agree.
    pub fn matching_migration_info(&self, other: &Self) -> (r: bool)
        ensures
            r == (self.state_pair() == other.state_pair()),
    {
        (self.version == other.version) && (self.migration_in_progress
            == other.migration_in_progress)
    }

    /// Join the two storage reads issued against one resolved block hash
    /// into a snapshot.
    ///
    /// The version slot must be present and hold at least two bytes, which
    /// are decoded as a little-endian 16-bit integer; an absent slot is
    /// `NotFound`, a short one `DecodeFailure`.  The migration flag is the
    /// presence of its slot, never the slot's contents.
    pub fn from_reads(
        block_number: u32,
        block_hash: Vec<u8>,
        version_slot: Option<Vec<u8>>,
        migration_slot: Option<Vec<u8>>,
    ) -> (r: Result<BlockInfo, QueryError>)
        requires
            block_hash@.len() == 32,
        ensures
            match (r, version_slot) {
                (Ok(info), Some(vbytes)) => {
                    &&& vbytes@.len() >= 2
                    &&& info.block_number == block_number
                    &&& info.block_hash@ == block_hash@
                    &&& info.version == le_value(vbytes@.take(2))
                    &&& info.migration_in_progress == (migration_slot is Some)
                    &&& info.wf()
                },
                (Err(e), None) => e == QueryError::NotFound,
                (Err(e), Some(vbytes)) => vbytes@.len() < 2 && e == QueryError::DecodeFailure,
                (Ok(_), None) => false,
            },
    {
        match version_slot {
            None => Err(QueryError::NotFound),
            Some(vbytes) => match decode_storage_version(&vbytes) {
                Err(e) => Err(e),
                Ok(version) => Ok(
                    BlockInfo {
                        block_hash,
                        block_number,
                        version,
                        migration_in_progress: migration_slot.is_some(),
                    },
                ),
            },
        }
    }

    /// The caller's stopping rule when walking migration boundaries
    /// backward: the version has come down to the target and no migration is
    /// running.
    pub fn reached_target(&self, target_version: u16) -> (r: bool)
        ensures
            r == (self.version <= target_version && !self.migration_in_progress),
    {
        self.version <= target_version && !self.migration_in_progress
    }
}

} // verus!
