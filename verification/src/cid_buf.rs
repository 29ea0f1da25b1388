//! A fixed-capacity buffer that the bytes of a cid are written into.
use vstd::prelude::*;

verus! {

/// The largest number of bytes a cid buffer holds.
pub const MAX_SIZE: usize = 39;

/// A buffer of at most `MAX_SIZE` bytes; writes beyond its capacity are cut.
pub struct CidBuf {
    data: [u8; MAX_SIZE],
    size: u8,
}

impl View for CidBuf {
    type V = Seq<u8>;

    /// The bytes written so far.
    closed spec fn view(&self) -> Seq<u8> {
        self.data@.subrange(0, self.size as int)
    }
}

/// The number of bytes a write of `n` bytes adds to a buffer holding `len`.
pub open spec fn written_count(len: nat, n: nat) -> nat {
    if MAX_SIZE - len < n {
        (MAX_SIZE - len) as nat
    } else {
        n
    }
}

impl CidBuf {
    #[verifier::type_invariant]
    spec fn fits(self) -> bool {
        self.size as usize <= MAX_SIZE
    }

    /// The number of bytes written so far.
    pub fn len(&self) -> (r: usize)
        ensures
            r == self@.len(),
            r <= MAX_SIZE,
    {
        proof {
            use_type_invariant(self);
        }
        self.size as usize
    }

    /// Appends as much of `buf` as fits, and returns how many bytes it took.
    pub fn write(&mut self, buf: &[u8]) -> (n: usize)
        ensures
            n == written_count(old(self)@.len(), buf@.len()),
            final(self)@ == old(self)@ + buf@.subrange(0, n as int),
            final(self)@.len() <= MAX_SIZE,
    {
        proof {
            use_type_invariant(&*self);
        }
        let len = self.len();
        let cap: usize = MAX_SIZE - len;
        let n = if cap < buf.len() {
            cap
        } else {
            buf.len()
        };
        let mut data = self.data;
        let ghost old_view = self@;
        let mut i: usize = 0;
        while i < n
            invariant
                len + n <= MAX_SIZE,
                n <= buf@.len(),
                i <= n,
                len == old_view.len(),
                data@.subrange(0, len as int) == old_view,
                forall|j: int| 0 <= j < i ==> data@[len + j] == buf@[j],
            decreases n - i,
        {
            data[len + i] = buf[i];
            i += 1;
        }
        let size = (len + n) as u8;
        *self = CidBuf { data, size };
        assert(self@ =~= old_view + buf@.subrange(0, n as int));
        n
    }

    /// Writes nothing out: the bytes stay in the buffer.
    pub fn flush(&mut self)
        ensures
            *final(self) == *old(self),
    {
    }
}

impl Default for CidBuf {
    fn default() -> (r: Self)
        ensures
            r@ == Seq::<u8>::empty(),
    {
        let r = CidBuf { size: 0, data: [0u8; MAX_SIZE] };
        assert(r@ =~= Seq::<u8>::empty());
        r
    }
}

} // verus!
