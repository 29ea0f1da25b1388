//! Settings of the storage service of a node.
use vstd::prelude::*;
use std::path::PathBuf;
use std::time::Duration;

verus! {

#[verifier::external_type_specification]
#[verifier::external_body]
pub struct ExPathBuf(PathBuf);

/// std `Duration::clone`: a `Duration` is `Copy`, its clone is the same value.
pub assume_specification[ <Duration as Clone>::clone ](d: &Duration) -> (r: Duration)
    ensures
        r == *d,
;

/// std `PathBuf::clone`: the clone holds the same path.
pub assume_specification[ <PathBuf as Clone>::clone ](p: &PathBuf) -> (r: PathBuf)
    ensures
        r == *p,
;

/// A duration as the two parts `Duration::new` takes: whole seconds, and
/// the nanoseconds beyond them (below one second).
#[derive(Clone, Copy, Debug, Eq, PartialEq)]
pub struct DurationParts {
    pub secs: u64,
    pub nanos: u32,
}

/// The longest duration a `Duration` can express.
pub open spec fn longest_duration() -> DurationParts {
    DurationParts { secs: u64::MAX, nanos: 999_999_999u32 }
}

#[derive(Clone, Debug, Eq, PartialEq)]
pub struct StorageConfig {
    /// The path to use for the block store. If it is `None` an in-memory block
    /// store will be used.
    pub path: Option<PathBuf>,
    /// The path to use for the database that persists block accesses times for
    /// the LRU cache. If this is set to 'None', access times will not be
    /// persisted but just tracked in memory.
    ///
    /// You can point this to the same file as the main block store, but this is
    /// not recommended.
    pub access_db_path: Option<PathBuf>,
    /// The target number of blocks.
    ///
    /// Up to this number, the store will retain everything even if
    /// not pinned. Once this number is exceeded, the store will run garbage
    /// collection of all unpinned blocks until the block criterion is met
    /// again.
    ///
    /// To completely disable storing of non-pinned blocks, set this to 0. Even
    /// then, the store will never delete pinned blocks.
    pub cache_size_blocks: u64,
    /// The target store size.
    ///
    /// Up to this size, the store will retain everything even if not pinned.
    /// Once this size is exceeded, the store will run garbage collection of
    /// all unpinned blocks until the size criterion is met again.
    ///
    /// The store will never delete pinned blocks.
    pub cache_size_bytes: u64,
    /// The interval at which the garbage collector is run.
    ///
    /// Note that this is implemented as delays between gcs, so it will not run
    /// exactly at this interval, but there will be some drift if gc takes
    /// long.
    pub gc_interval: Duration,
    /// The minimum number of blocks to collect in any case.
    ///
    /// Using this parameter, it is possible to guarantee a minimum rate with
    /// which the gc will be able to keep up. It is `gc_min_blocks` /
    /// `gc_interval`.
    pub gc_min_blocks: usize,
    /// The target maximum gc duration of a single garbage collector run.
    ///
    /// This can not be guaranteed, since we guarantee to collect at least
    /// `gc_min_blocks`. But as soon as this duration is exceeded, the
    /// incremental gc will stop doing additional work.
    pub gc_target_duration: DurationParts,
}

impl StorageConfig {
    /// Creates a new `StorageConfig`: a block count target of `cache_size`,
    /// no byte target, no minimum of blocks per gc run, and the longest
    /// gc run a `Duration` can express.
    pub fn new(
        path: Option<PathBuf>,
        access_db_path: Option<PathBuf>,
        cache_size: u64,
        gc_interval: Duration,
    ) -> (r: Self)
        ensures
            r.path == path,
            r.access_db_path == access_db_path,
            r.cache_size_blocks == cache_size,
            r.cache_size_bytes == u64::MAX,
            r.gc_interval == gc_interval,
            r.gc_min_blocks == usize::MAX,
            r.gc_target_duration == longest_duration(),
    {
        Self {
            path,
            access_db_path,
            cache_size_blocks: cache_size,
            cache_size_bytes: u64::MAX,
            gc_interval,
            gc_min_blocks: usize::MAX,
            gc_target_duration: DurationParts { secs: u64::MAX, nanos: 1_000_000_000 - 1 },
        }
    }
}

} // verus!
