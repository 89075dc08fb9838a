use vstd::prelude::*;
use crate::format::append_bytes;

verus! {

/// A sink together with the number of bytes that went into it. The number
/// wraps around at the limit of `usize`.
pub struct Counter<T> {
    pub inner: T,
    pub size: usize,
}

/// `size` after `written` more bytes, wrapped around.
pub open spec fn counted(size: usize, written: usize) -> usize {
    if size + written > usize::MAX {
        (size + written - usize::MAX - 1) as usize
    } else {
        (size + written) as usize
    }
}

impl<T> Counter<T> {
    pub fn new(inner: T) -> (r: Self)
        ensures
            r.inner == inner,
            r.size == 0,
    {
        Counter { inner, size: 0 }
    }

    pub fn size(&self) -> (r: usize)
        ensures
            r == self.size,
    {
        self.size
    }

    /// Counts `written` more bytes.
    pub fn record(&mut self, written: usize)
        ensures
            final(self).size == counted(old(self).size, written),
            final(self).inner == old(self).inner,
    {
        self.size = self.size.wrapping_add(written);
    }
}

impl Counter<Vec<u8>> {
    /// Appends `buf` to the sink, counts its bytes and says how many it took.
    pub fn write(&mut self, buf: &[u8]) -> (r: usize)
        ensures
            r == buf@.len(),
            final(self).size == counted(old(self).size, buf@.len() as usize),
            final(self).inner@ == old(self).inner@ + buf@,
    {
        self.record(buf.len());
        append_bytes(&mut self.inner, buf);
        buf.len()
    }
}

} // verus!
