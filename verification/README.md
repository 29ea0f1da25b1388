# skchain

A block store for content-addressed IPLD data and the core of a chain node
built on it, written in Verus.

- `src/` is the verified library: the rules of the block store (what
  putting a block writes, what `has_cid`, `has_block`, `get_cid` and
  `get_block` answer, the search for missing descendants, and how deeply
  DAG-CBOR data nests before its links are read), the
  configuration types, the lifecycle event registry, the ordering of
  trie changes and the key spaces of child tries, accounts and their stored
  bytes. Calls into `libipld`, `ed25519-dalek`, `bincode` and `num-bigint`
  stand behind small trusted wrappers whose contracts say what those
  crates do.
- `app/` performs what needs I/O or outside traits: the RocksDB column
  families the store writes to, the storage service, the `trie-db`
  operations, the clock and the genesis settings.
- `tests/` runs the library on concrete values, among them the block
  store's rules on an in-memory map of column families.
