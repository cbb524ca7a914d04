use vstd::prelude::*;

verus! {

/// Content hash identifying a block.
#[derive(Clone, Copy, Debug, Hash)]
pub struct HeaderHash {
    pub bytes: [u8; 32],
}

impl HeaderHash {
    pub open spec fn view(&self) -> Seq<u8> {
        self.bytes@
    }
}

impl PartialEq for HeaderHash {
    fn eq(&self, other: &HeaderHash) -> (r: bool) {
        let mut i: usize = 0;
        while i < 32
            invariant
                0 <= i <= 32,
                self.bytes@.len() == 32,
                other.bytes@.len() == 32,
                forall|j: int| 0 <= j < i ==> self.bytes@[j] == other.bytes@[j],
            decreases 32 - i,
        {
            if self.bytes[i] != other.bytes[i] {
                return false;
            }
            i = i + 1;
        }
        assert(self.bytes@ =~= other.bytes@);
        true
    }
}

impl vstd::std_specs::cmp::PartialEqSpecImpl for HeaderHash {
    open spec fn obeys_eq_spec() -> bool {
        true
    }

    open spec fn eq_spec(&self, other: &HeaderHash) -> bool {
        self@ == other@
    }
}

impl Eq for HeaderHash {
}

/// Metadata that the store keeps beside each block.
#[derive(Clone, Copy, Debug)]
pub struct BlockInfo {
    pub block_hash: HeaderHash,
    /// Path length from genesis: the genesis block has depth 1.
    pub depth: u64,
    pub parent_hash: HeaderHash,
}

/// Errors of the store and of traversal setup.
#[derive(Debug)]
pub enum StorageError {
    /// The requested block is not in the store.
    BlockNotFound,
    /// The requested range is not an ancestor/descendant pair.
    CannotIterate,
    /// Any other failure of the store, with its message.
    BackendError(String),
}

impl Clone for StorageError {
    fn clone(&self) -> (r: StorageError)
        ensures
            r == *self,
    {
        match self {
            StorageError::BlockNotFound => StorageError::BlockNotFound,
            StorageError::CannotIterate => StorageError::CannotIterate,
            StorageError::BackendError(m) => StorageError::BackendError(m.clone()),
        }
    }
}

/// A checkpoint that is an ancestor of a given block, at `distance` steps.
#[derive(Clone, Copy, Debug)]
pub struct Ancestor {
    pub header_hash: HeaderHash,
    pub distance: u64,
}

/// Metadata of a chain from genesis: index `i` is at depth `i + 1` and each
/// block's parent is the block before it.
pub open spec fn is_chain(chain: Seq<BlockInfo>) -> bool {
    &&& forall|i: int| 0 <= i < chain.len() ==> #[trigger] chain[i].depth == i + 1
    &&& forall|i: int|
        0 < i < chain.len() ==> #[trigger] chain[i].parent_hash == chain[i - 1].block_hash
}

} // verus!
