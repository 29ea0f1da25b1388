//! A block store for content-addressed IPLD data, and the core of a chain
//! node built on it.
//!
//! - `store_config`: size targets, settings and statistics of the store.
//! - `block_store`: what putting a block writes and what reads give back.
//! - `ipld`: cids, their multihashes, the links of a block, chain nodes.
//! - `missing_blocks`: the search for the missing descendants of a cid.
//! - `cid_buf`: a fixed-capacity buffer for the bytes of a cid.
//! - `dag_cbor`: how deeply the data items of DAG-CBOR data nest.
//! - `temp_pin`: temporary pins.
//! - `events`: lifecycle events of a node and their handlers.
//! - `storage_config`: settings of a node's storage service.
//! - `trie`: key spaces of child tries and the ordering of trie changes.
//! - `account`: accounts, addresses and their stored bytes.
//! - `chain_index`: the chain's index of blocks.
pub mod account;
pub mod block_store;
pub mod chain_index;
pub mod cid_buf;
pub mod dag_cbor;
pub mod events;
pub mod ipld;
pub mod missing_blocks;
pub mod storage_config;
pub mod store_config;
pub mod temp_pin;
pub mod trie;
