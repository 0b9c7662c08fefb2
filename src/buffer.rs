use vstd::prelude::*;

verus! {

/// The sequence of `n` zero bytes.
pub open spec fn zeros(n: nat) -> Seq<u8> {
    Seq::new(n, |i: int| 0u8)
}

/// `s` with `n` bytes of `src`, taken from `from`, laid over it at `at`.
pub open spec fn overlay(s: Seq<u8>, at: int, src: Seq<u8>, from: int, n: int) -> Seq<u8> {
    s.subrange(0, at) + src.subrange(from, from + n) + s.subrange(at + n, s.len() as int)
}

/// A fixed-size byte region whose size is a whole number of pages.
pub struct AlignedVecU8 {
    vec: Vec<u8>,
    page_size: usize,
}

impl View for AlignedVecU8 {
    type V = Seq<u8>;

    closed spec fn view(&self) -> Seq<u8> {
        self.vec@
    }
}

impl AlignedVecU8 {
    /// The page size the region was made for.
    pub closed spec fn page(&self) -> nat {
        self.page_size as nat
    }

    /// A zeroed region of `buf_size` bytes, a multiple of `page_size`.
    pub fn new(buf_size: usize, page_size: usize) -> (r: Self)
        requires
            page_size > 0,
            buf_size % page_size == 0,
        ensures
            r@ == zeros(buf_size as nat),
            r.page() == page_size,
    {
        let mut vec: Vec<u8> = Vec::with_capacity(buf_size);
        let mut i: usize = 0;
        while i < buf_size
            invariant
                i <= buf_size,
                vec@ == zeros(i as nat),
            decreases buf_size - i,
        {
            vec.push(0u8);
            i = i + 1;
            assert(vec@ =~= zeros(i as nat));
        }
        AlignedVecU8 { vec, page_size }
    }

    /// Number of bytes in the region.
    pub fn len(&self) -> (r: usize)
        ensures
            r == self@.len(),
    {
        self.vec.len()
    }

    /// The page size the region was made for.
    pub fn page_size(&self) -> (r: usize)
        ensures
            r == self.page(),
    {
        self.page_size
    }

    /// The bytes of the region.
    pub fn as_slice(&self) -> (r: &[u8])
        ensures
            r@ == self@,
    {
        self.vec.as_slice()
    }

    /// Copies `n` bytes of `src`, starting at `from`, into the region at `at`.
    pub fn copy_in(&mut self, at: usize, src: &[u8], from: usize, n: usize)
        requires
            at + n <= old(self)@.len(),
            from + n <= src@.len(),
        ensures
            final(self)@ == overlay(old(self)@, at as int, src@, from as int, n as int),
            final(self).page() == old(self).page(),
    {
        let ghost s0 = self.vec@;
        let size: usize = self.vec.len();
        let mut i: usize = 0;
        while i < n
            invariant
                i <= n,
                at + n <= s0.len(),
                s0 == old(self)@,
                at + n <= size,
                from + n <= src.len(),
                from + n <= src@.len(),
                self.vec@.len() == s0.len(),
                self.page_size == old(self).page_size,
                self.vec@ == overlay(s0, at as int, src@, from as int, i as int),
            decreases n - i,
        {
            self.vec.set(at + i, src[from + i]);
            i = i + 1;
            assert(self.vec@ =~= overlay(s0, at as int, src@, from as int, i as int));
        }
    }
}

/// One buffer of the pool: its bytes, how many of them are valid, and its capacity.
pub struct ReaderBuffer {
    pub data: AlignedVecU8,
    pub len: usize,
    pub cap: usize,
}

impl ReaderBuffer {
    /// The buffer is sized as declared and its valid prefix fits.
    pub open spec fn wf(&self) -> bool {
        &&& self.data@.len() == self.cap
        &&& self.len <= self.cap
    }

    /// An empty buffer of `buf_size` bytes.
    pub fn new(buf_size: usize, page_size: usize) -> (r: Self)
        requires
            page_size > 0,
            buf_size % page_size == 0,
        ensures
            r.wf(),
            r.data@ == zeros(buf_size as nat),
            r.data.page() == page_size,
            r.len == 0,
            r.cap == buf_size,
    {
        let data = AlignedVecU8::new(buf_size, page_size);
        ReaderBuffer { data, len: 0, cap: buf_size }
    }

    /// Capacity in bytes.
    pub fn cap(&self) -> (r: usize)
        ensures
            r == self.cap,
    {
        self.cap
    }

    /// Number of valid bytes.
    pub fn len(&self) -> (r: usize)
        ensures
            r == self.len,
    {
        self.len
    }
}

} // verus!
