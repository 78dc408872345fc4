use crate::codec::{round_trips, Codec};
use vstd::prelude::*;
use vstd::slice::slice_subrange;

verus! {

/// A pair of reusable byte buffers, one for keys and one for values, so that
/// an operation can encode both without one overwriting the other. Each
/// buffer is filled by one encode call, lent out, and cleared again; a pool
/// is idle when both are empty.
pub struct ScratchPool {
    key: Vec<u8>,
    value: Vec<u8>,
}

impl ScratchPool {
    /// What the key buffer holds.
    pub closed spec fn key_bytes(&self) -> Seq<u8> {
        self.key@
    }

    /// What the value buffer holds.
    pub closed spec fn value_bytes(&self) -> Seq<u8> {
        self.value@
    }

    /// Both buffers are empty: no encode call is under way.
    pub open spec fn idle(&self) -> bool {
        self.key_bytes().len() == 0 && self.value_bytes().len() == 0
    }

    /// A pool with two empty buffers.
    pub fn new() -> (pool: Self)
        ensures
            pool.idle(),
    {
        ScratchPool { key: Vec::new(), value: Vec::new() }
    }

    /// Encodes `item` into the key buffer, which must not be in use, and
    /// returns the number of bytes written.
    pub fn encode_key<T: Codec>(&mut self, item: &T) -> (n: usize)
        requires
            old(self).key_bytes().len() == 0,
        ensures
            final(self).key_bytes() == item.encoding(),
            final(self).value_bytes() == old(self).value_bytes(),
            n == item.encoding().len(),
            round_trips(item),
    {
        let n = item.encode_into(&mut self.key);
        assert(self.key@ =~= item.encoding());
        n
    }

    /// Encodes `item` into the value buffer, which must not be in use, and
    /// returns the number of bytes written.
    pub fn encode_value<T: Codec>(&mut self, item: &T) -> (n: usize)
        requires
            old(self).value_bytes().len() == 0,
        ensures
            final(self).value_bytes() == item.encoding(),
            final(self).key_bytes() == old(self).key_bytes(),
            n == item.encoding().len(),
            round_trips(item),
    {
        let n = item.encode_into(&mut self.value);
        assert(self.value@ =~= item.encoding());
        n
    }

    /// The first `n` bytes of the key buffer.
    pub fn key(&self, n: usize) -> (bytes: &[u8])
        requires
            n <= self.key_bytes().len(),
        ensures
            bytes@ == self.key_bytes().take(n as int),
    {
        slice_subrange(self.key.as_slice(), 0, n)
    }

    /// The first `n` bytes of the value buffer.
    pub fn value(&self, n: usize) -> (bytes: &[u8])
        requires
            n <= self.value_bytes().len(),
        ensures
            bytes@ == self.value_bytes().take(n as int),
    {
        slice_subrange(self.value.as_slice(), 0, n)
    }

    /// Empties both buffers for the next use.
    pub fn release(&mut self)
        ensures
            final(self).idle(),
    {
        self.key.clear();
        self.value.clear();
    }
}

} // verus!
