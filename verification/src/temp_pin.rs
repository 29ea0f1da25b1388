//! Temporary pins: handles that keep blocks from being collected while
//! they are being added to the store.
use vstd::prelude::*;

verus! {

/// A temporary pin, known by its id; an id of 0 means the pin was never
/// used. Dropping a used pin enqueues its id for removal before the next gc.
// do not implement Clone for this!
pub struct TempPin {
    id: i64,
}

impl TempPin {
    /// The id of the pin.
    pub closed spec fn spec_id(&self) -> i64 {
        self.id
    }

    /// A pin that has not been used.
    pub fn new() -> (r: Self)
        ensures
            r.spec_id() == 0,
    {
        Self { id: 0 }
    }

    /// The id of the pin.
    pub fn id(&self) -> (r: i64)
        ensures
            r == self.spec_id(),
    {
        self.id
    }

    /// Whether the pin was used: only used pins have a positive id.
    pub fn is_used(&self) -> (r: bool)
        ensures
            r == (self.spec_id() > 0),
    {
        self.id > 0
    }

    /// The id to enqueue for removal when the pin is dropped: its id if the
    /// pin was used, nothing otherwise.
    pub fn expired_id(&self) -> (r: Option<i64>)
        ensures
            r == (if self.spec_id() > 0 {
                Some(self.spec_id())
            } else {
                None
            }),
    {
        if self.id > 0 {
            Some(self.id)
        } else {
            None
        }
    }
}

} // verus!
