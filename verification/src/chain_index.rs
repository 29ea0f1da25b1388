//! The chain's index of blocks: the root cid and the cids of the blocks,
//! grouped by ten thousand.
use vstd::prelude::*;
use std::collections::HashMap;
use crate::ipld::{default_cid, default_cid_bytes};

verus! {

/// The index of the chain's blocks; cids are held as bytes.
pub struct BlockStore {
    root_cid: Vec<u8>,
    // index every 10k block array's BlockNode cid
    root_block_10k: Vec<Vec<u8>>,
    // all blocks, key is floor(block number / 10000)
    sub_blocks: HashMap<u32, Vec<Vec<u8>>>,
}

impl BlockStore {
    /// The root cid of the index.
    pub closed spec fn spec_root_cid(&self) -> Seq<u8> {
        self.root_cid@
    }

    /// The number of groups of ten thousand blocks indexed.
    pub closed spec fn spec_group_count(&self) -> nat {
        self.root_block_10k@.len()
    }

    /// The groups of blocks indexed, by group number.
    pub closed spec fn spec_sub_blocks(&self) -> Map<u32, Vec<Vec<u8>>> {
        self.sub_blocks@
    }

    /// An empty index whose root is the default cid.
    pub fn new() -> (r: Self)
        ensures
            r.spec_root_cid() == default_cid(),
            r.spec_group_count() == 0,
            r.spec_sub_blocks() == Map::<u32, Vec<Vec<u8>>>::empty(),
    {
        BlockStore {
            root_cid: default_cid_bytes(),
            root_block_10k: Vec::new(),
            sub_blocks: HashMap::new(),
        }
    }

    /// Checks the indexed blocks; there is nothing to check yet.
    pub fn check_blocks(self) {
    }

    /// Loads the current group of ten thousand blocks; nothing is loaded yet.
    pub fn load_current_10k_blocks(self) {
    }

    /// Sets the root cid of an index that the call consumes: the index is
    /// dropped afterwards, so the call has no effect a caller can see.
    pub fn set_root_cid(self, cid: Vec<u8>) {
        let mut s = self;
        s.root_cid = cid;
    }
}

} // verus!
