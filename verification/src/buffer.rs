//! Reusable I/O buffers and the byte-block helpers the forwarding paths
//! use.

use vstd::prelude::*;

verus! {

/// A reusable I/O buffer: fixed storage, a fill length, and an in-use
/// mark for pool bookkeeping.
#[derive(Debug)]
pub struct Buffer {
    data: Vec<u8>,
    len: usize,
    in_use: bool,
}

impl Buffer {
    /// The buffer's fixed capacity.
    pub closed spec fn spec_size(self) -> usize {
        self.data@.len() as usize
    }

    /// How many leading bytes are filled.
    pub closed spec fn spec_len(self) -> usize {
        self.len
    }

    /// Whether the buffer is checked out of its pool.
    pub closed spec fn spec_in_use(self) -> bool {
        self.in_use
    }

    /// The filled length never exceeds the capacity.
    pub closed spec fn wf(self) -> bool {
        self.len <= self.data@.len()
    }

    /// A zeroed buffer of the given capacity, unused and empty.
    pub fn new(size: usize) -> (r: Buffer)
        ensures
            r.spec_size() == size,
            r.spec_len() == 0,
            !r.spec_in_use(),
            r.wf(),
    {
        let mut data: Vec<u8> = Vec::new();
        data.resize(size, 0);
        Buffer { data, len: 0, in_use: false }
    }

    /// Empty the buffer and mark it unused.
    pub fn reset(&mut self)
        ensures
            final (self).spec_len() == 0,
            !final (self).spec_in_use(),
            final (self).spec_size() == old(self).spec_size(),
            final (self).wf(),
    {
        self.len = 0;
        self.in_use = false;
    }

    /// Record how many leading bytes are filled, held to the capacity.
    pub fn set_len(&mut self, len: usize)
        ensures
            final (self).spec_len() == (if len <= old(self).spec_size() {
                len
            } else {
                old(self).spec_size()
            }),
            final (self).spec_size() == old(self).spec_size(),
            final (self).spec_in_use() == old(self).spec_in_use(),
            final (self).wf(),
    {
        let cap = self.data.len();
        self.len = if len <= cap {
            len
        } else {
            cap
        };
    }

    /// Mark the buffer checked out.
    pub fn mark_in_use(&mut self)
        ensures
            final (self).spec_in_use(),
            final (self).spec_len() == old(self).spec_len(),
            final (self).spec_size() == old(self).spec_size(),
            final (self).wf() == old(self).wf(),
    {
        self.in_use = true;
    }

    /// Mark the buffer returned.
    pub fn mark_unused(&mut self)
        ensures
            !final (self).spec_in_use(),
            final (self).spec_len() == old(self).spec_len(),
            final (self).spec_size() == old(self).spec_size(),
            final (self).wf() == old(self).wf(),
    {
        self.in_use = false;
    }

    /// The filled bytes.
    pub fn written_slice(&self) -> (r: &[u8])
        requires
            self.wf(),
        ensures
            r@.len() == self.spec_len(),
    {
        vstd::slice::slice_subrange(self.data.as_slice(), 0, self.len)
    }
}

/// Copy as many leading bytes as both slices can hold; the copied count
/// is returned, the rest of `dst` is untouched.
pub fn simd_copy(src: &[u8], dst: &mut [u8]) -> (n: usize)
    ensures
        n == (if src@.len() <= old(dst)@.len() {
            src@.len() as int
        } else {
            old(dst)@.len() as int
        }),
        final (dst)@.len() == old(dst)@.len(),
        forall|i: int| 0 <= i < n ==> final (dst)@[i] == src@[i],
        forall|i: int| n <= i < final (dst)@.len() ==> final (dst)@[i] == old(dst)@[i],
{
    let sn = src.len();
    let dn = dst.len();
    let n = if sn <= dn {
        sn
    } else {
        dn
    };
    let mut i: usize = 0;
    while i < n
        invariant
            n <= src@.len(),
            n <= dst@.len(),
            dst@.len() == old(dst)@.len(),
            0 <= i <= n,
            forall|j: int| 0 <= j < i ==> dst@[j] == src@[j],
            forall|j: int| i <= j < dst@.len() ==> dst@[j] == old(dst)@[j],
        decreases n - i,
    {
        let b = *vstd::slice::slice_index_get(src, i);
        dst[i] = b;
        i += 1;
    }
    n
}

/// Whether two byte blocks hold the same bytes.
pub fn simd_compare(a: &[u8], b: &[u8]) -> (r: bool)
    ensures
        r <==> a@ == b@,
{
    crate::bytestr::bytes_eq(a, b)
}

} // verus!
