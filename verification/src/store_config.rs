//! Configuration and statistics of the block store.
use vstd::prelude::*;

verus! {

/// Size targets for a store. Gc of non-pinned blocks will start once one of the size targets is exceeded.
///
/// There are targets for both block count and block size. The reason for this is that a store that has
/// a very large number of tiny blocks will become sluggish despite not having a large total size.
///
/// Size targets only apply to non-pinned blocks. Pinned blocks will never be gced even if exceeding one of the
/// size targets.
#[derive(Debug, Clone, Copy, PartialEq, Eq, Structural)]
pub struct SizeTargets {
    /// target number of blocks.
    ///
    /// Up to this number, the store will retain everything even if not pinned.
    /// Once this number is exceeded, the store will run garbage collection of all
    /// unpinned blocks until the block criterion is met again.
    ///
    /// To completely disable storing of non-pinned blocks, set this to 0.
    /// Even then, the store will never delete pinned blocks.
    pub count: u64,
    /// target store size.
    ///
    /// Up to this size, the store will retain everything even if not pinned.
    /// Once this size is exceeded, the store will run garbage collection of all
    /// unpinned blocks until the size criterion is met again.
    ///
    /// The store will never delete pinned blocks.
    pub size: u64,
}

impl Default for SizeTargets {
    fn default() -> (r: Self)
        ensures
            r.count == 0,
            r.size == 0,
    {
        SizeTargets { count: 0, size: 0 }
    }
}

/// Whether the statistics `stats` lie beyond the targets `t`.
pub open spec fn targets_exceeded(t: SizeTargets, stats: StoreStats) -> bool {
    stats.spec_count() > t.count || stats.spec_size() > t.size
}

impl SizeTargets {
    pub fn new(count: u64, size: u64) -> (r: Self)
        ensures
            r.count == count,
            r.size == size,
    {
        Self { count, size }
    }

    /// Whether the store described by `stats` holds more blocks, or more
    /// bytes, than these targets allow.
    pub fn exceeded(&self, stats: &StoreStats) -> (r: bool)
        ensures
            r == targets_exceeded(*self, *stats),
    {
        stats.count > self.count || stats.size > self.size
    }

    /// Size targets that can not be reached. This can be used to disable gc.
    pub fn max_value() -> (r: Self)
        ensures
            r.count == u64::MAX,
            r.size == u64::MAX,
    {
        Self { count: u64::MAX, size: u64::MAX }
    }
}

/// How eagerly the store syncs writes to disk.
#[derive(Debug, Clone, Copy, PartialEq, Eq, Structural)]
pub enum Synchronous {
    // this is the most conservative mode. This only works if we have few, large transactions
    Full,
    Normal,
    Off,
}

/// The text a sync mode is displayed as.
pub open spec fn synchronous_name(s: Synchronous) -> Seq<char> {
    match s {
        Synchronous::Full => "FULL"@,
        Synchronous::Normal => "NORMAL"@,
        Synchronous::Off => "OFF"@,
    }
}

impl Synchronous {
    /// The displayed form of the mode: `FULL`, `NORMAL` or `OFF`.
    pub fn to_string(&self) -> (r: String)
        ensures
            r@ == synchronous_name(*self),
    {
        match self {
            Synchronous::Full => {
                proof {
                    reveal_strlit("FULL");
                }
                "FULL".to_owned()
            },
            Synchronous::Normal => {
                proof {
                    reveal_strlit("NORMAL");
                }
                "NORMAL".to_owned()
            },
            Synchronous::Off => {
                proof {
                    reveal_strlit("OFF");
                }
                "OFF".to_owned()
            },
        }
    }
}

/// The settings a block store is opened with.
#[derive(Debug, Clone)]
pub struct Config {
    size_targets: SizeTargets,
    pragma_synchronous: Synchronous,
    pragma_cache_pages: u64,
    // open in readonly mode
    read_only: bool,
    // create if it does not yet exist
    create: bool,
}

/// The settings of a [`Config`], as plain values.
pub struct ConfigView {
    pub size_targets: SizeTargets,
    pub pragma_synchronous: Synchronous,
    pub pragma_cache_pages: u64,
    pub read_only: bool,
    pub create: bool,
}

impl View for Config {
    type V = ConfigView;

    closed spec fn view(&self) -> ConfigView {
        ConfigView {
            size_targets: self.size_targets,
            pragma_synchronous: self.pragma_synchronous,
            pragma_cache_pages: self.pragma_cache_pages,
            read_only: self.read_only,
            create: self.create,
        }
    }
}

impl Default for Config {
    /// Zero size targets, `FULL` sync, 8192 cache pages (32 megabytes with
    /// the default page size of 4096), writable, created if missing.
    fn default() -> (r: Self)
        ensures
            r@.size_targets == (SizeTargets { count: 0, size: 0 }),
            r@.pragma_synchronous == Synchronous::Full,
            r@.pragma_cache_pages == 8192,
            !r@.read_only,
            r@.create,
    {
        Self {
            size_targets: SizeTargets { count: 0, size: 0 },
            pragma_synchronous: Synchronous::Full,  // most conservative setting
            pragma_cache_pages: 8192,  // 32 megabytes with the default page size of 4096
            read_only: false,
            create: true,
        }
    }
}

impl Config {
    pub fn with_read_only(self, value: bool) -> (r: Self)
        ensures
            r@ == (ConfigView { read_only: value, ..self@ }),
    {
        let mut c = self;
        c.read_only = value;
        c
    }

    /// Set size targets for the store
    pub fn with_size_targets(self, count: u64, size: u64) -> (r: Self)
        ensures
            r@ == (ConfigView { size_targets: SizeTargets { count, size }, ..self@ }),
    {
        let mut c = self;
        c.size_targets = SizeTargets { count, size };
        c
    }

    pub fn with_pragma_synchronous(self, value: Synchronous) -> (r: Self)
        ensures
            r@ == (ConfigView { pragma_synchronous: value, ..self@ }),
    {
        let mut c = self;
        c.pragma_synchronous = value;
        c
    }

    pub fn with_pragma_cache_pages(self, value: u64) -> (r: Self)
        ensures
            r@ == (ConfigView { pragma_cache_pages: value, ..self@ }),
    {
        let mut c = self;
        c.pragma_cache_pages = value;
        c
    }

    /// Whether a missing store is created on opening.
    pub fn create(&self) -> (r: bool)
        ensures
            r == self@.create,
    {
        self.create
    }
}

/// Counters that describe how much a store holds.
#[derive(Debug, Clone, Copy, PartialEq, Eq, Structural)]
pub struct StoreStats {
    count: u64,
    size: u64,
    page_size: u64,
    used_pages: u64,
    free_pages: u64,
}

impl Default for StoreStats {
    fn default() -> (r: Self)
        ensures
            r.spec_count() == 0,
            r.spec_size() == 0,
            r.spec_page_size() == 0,
            r.spec_used_pages() == 0,
            r.spec_free_pages() == 0,
    {
        StoreStats { count: 0, size: 0, page_size: 0, used_pages: 0, free_pages: 0 }
    }
}

impl StoreStats {
    /// The net block data fits in the used pages.
    #[verifier::type_invariant]
    spec fn size_fits_used_pages(self) -> bool {
        self.size <= self.used_pages * self.page_size
    }

    pub closed spec fn spec_count(self) -> u64 {
        self.count
    }

    pub closed spec fn spec_size(self) -> u64 {
        self.size
    }

    pub closed spec fn spec_page_size(self) -> u64 {
        self.page_size
    }

    pub closed spec fn spec_used_pages(self) -> u64 {
        self.used_pages
    }

    pub closed spec fn spec_free_pages(self) -> u64 {
        self.free_pages
    }

    /// Total number of blocks in the store
    pub fn count(&self) -> (r: u64)
        ensures
            r == self.spec_count(),
    {
        self.count
    }

    /// Total size of blocks in the store
    pub fn size(&self) -> (r: u64)
        ensures
            r == self.spec_size(),
            r <= self.spec_used_pages() * self.spec_page_size(),
    {
        proof {
            use_type_invariant(self);
        }
        self.size
    }

    /// Page size used by the DB
    pub fn page_size(&self) -> (r: u64)
        ensures
            r == self.spec_page_size(),
    {
        self.page_size
    }

    /// Number of used pages in the DB
    ///
    /// Multiply this with [`page_size`](#method.page_size) to obtain an upper bound
    /// on how much space is actually used. The value returned by [`size`](#method.size)
    /// will always be smaller than this, since it only counts net block data, without
    /// overhead.
    pub fn used_pages(&self) -> (r: u64)
        ensures
            r == self.spec_used_pages(),
            self.spec_size() <= r * self.spec_page_size(),
    {
        proof {
            use_type_invariant(self);
        }
        self.used_pages
    }

    /// Number of unused pages in the DB
    pub fn free_pages(&self) -> (r: u64)
        ensures
            r == self.spec_free_pages(),
    {
        self.free_pages
    }
}

/// The targets of `SizeTargets::max_value` can not be reached: no
/// statistics exceed them, so they disable gc.
pub proof fn law_max_targets_never_exceeded(stats: StoreStats)
    ensures
        !targets_exceeded(SizeTargets { count: u64::MAX, size: u64::MAX }, stats),
{
}

} // verus!
