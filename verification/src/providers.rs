use vstd::prelude::*;

use crate::types::Block;
use crate::types::BlockHash;
use crate::types::Deploy;
use crate::types::DeployHash;

verus! {

/// The storage collaborator, as the fetcher consumes it.  The reactor
/// implements this trait over the node's persistent store and performs each
/// `GetFromStorage` effect through it; storage-layer failures are folded into
/// absence at that boundary.
pub trait StorageProvider {
    /// Retrieves the deploys with the given hashes.  The answer is
    /// positional: one optional deploy per requested hash, in order.
    fn get_deploys_from_storage(&mut self, hashes: &Vec<DeployHash>) -> Vec<Option<Deploy>>;

    /// Retrieves the block with the given hash, if stored.
    fn get_block_from_storage(&mut self, hash: BlockHash) -> Option<Block>;

    /// Retrieves the block at the given height of the linear chain, if
    /// stored.
    fn get_block_at_height(&mut self, height: u64) -> Option<Block>;
}

} // verus!
