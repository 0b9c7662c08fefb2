use vstd::prelude::*;

use crate::buffer::{overlay, ReaderBuffer};
use crate::buffer_aux::{BufferDataPos, BufferStatus};
use crate::error::FioxError;

verus! {

/// One read that the reader asks its caller to perform into buffer `buf_idx`:
/// `len` bytes at file offset `offset`, by direct I/O when `direct` holds and by a
/// conventional read otherwise. The caller hands the bytes back through `complete`.
#[derive(Debug, Clone, Copy, PartialEq, Eq, Structural)]
pub struct ReadRequest {
    pub buf_idx: usize,
    pub offset: u64,
    pub len: usize,
    pub direct: bool,
}

/// What the caller of `poll_read` does next.
#[derive(Debug, Clone, Copy, PartialEq, Eq, Structural)]
pub enum ReadAction {
    /// Perform this read, then poll again.
    Submit(ReadRequest),
    /// Wait for one completion, hand it to `complete`, then poll again.
    Wait,
    /// The call is over: this many bytes of the output are filled.
    Done(usize),
}

/// The smaller of two integers.
pub open spec fn min_int(a: int, b: int) -> int {
    if a <= b {
        a
    } else {
        b
    }
}

/// Why a reader over `[start_pos, end_pos.unwrap_or(file_len))` cannot be built, if it cannot.
pub open spec fn reader_config_error(
    start_pos: u64,
    buffer_capacity: usize,
    num_buffers: usize,
    page_size: usize,
    file_len: u64,
    end_pos: Option<u64>,
) -> Option<FioxError> {
    let end = match end_pos {
        Some(e) => e,
        None => file_len,
    };
    if page_size == 0 {
        Some(FioxError::ZeroPageSize)
    } else if buffer_capacity == 0 || buffer_capacity % page_size != 0 {
        Some(FioxError::MisalignedCapacity)
    } else if num_buffers == 0 {
        Some(FioxError::EmptyPool)
    } else if end > file_len {
        Some(FioxError::EndPastFile)
    } else if start_pos > end {
        Some(FioxError::StartPastEnd)
    } else {
        None
    }
}

/// A multiple of `c` is a multiple of any divisor `p` of `c`.
proof fn lemma_multiple_of_multiple(x: int, c: int, p: int)
    requires
        x >= 0,
        c > 0,
        p > 0,
        x % c == 0,
        c % p == 0,
    ensures
        x % p == 0,
{
    vstd::arithmetic::div_mod::lemma_fundamental_div_mod(x, c);
    vstd::arithmetic::div_mod::lemma_fundamental_div_mod(c, p);
    let k = (c / p) * (x / c);
    assert(x == k * p) by (nonlinear_arith)
        requires
            x == c * (x / c),
            c == p * (c / p),
            k == (c / p) * (x / c),
    ;
    vstd::arithmetic::div_mod::lemma_mod_multiples_basic(k, p);
}

/// Copies `n` bytes of `src` from `from` into `out` at `at`.
fn copy_out(src: &[u8], from: usize, out: &mut [u8], at: usize, n: usize)
    requires
        from + n <= src@.len(),
        at + n <= old(out)@.len(),
    ensures
        final(out)@ == overlay(old(out)@, at as int, src@, from as int, n as int),
{
    let ghost o0 = out@;
    let size: usize = out.len();
    let mut i: usize = 0;
    while i < n
        invariant
            i <= n,
            from + n <= src@.len(),
            from + n <= src.len(),
            at + n <= size,
            size == o0.len(),
            out@.len() == o0.len(),
            o0 == old(out)@,
            out@ == overlay(o0, at as int, src@, from as int, i as int),
        decreases n - i,
    {
        out[at + i] = src[from + i];
        i = i + 1;
        assert(out@ =~= overlay(o0, at as int, src@, from as int, i as int));
    }
}

/// The reading half of the engine: a pool of buffers filled ahead of the caller in
/// file order, and drained into the caller's slices in that same order.
pub struct ReaderState {
    cap: usize,
    page_size: usize,
    start_pos: u64,
    end_pos: u64,
    buffers: Vec<ReaderBuffer>,
    status: Vec<BufferStatus>,
    buf_pos: Vec<u64>,
    req_len: Vec<usize>,
    pos: BufferDataPos,
    file_pos_cursor: u64,
    primed: usize,
    delivered: Ghost<Seq<u8>>,
}

impl ReaderState {
    /// Number of buffers in the pool.
    pub closed spec fn num(&self) -> int {
        self.status@.len() as int
    }

    /// Capacity of each buffer.
    pub closed spec fn capacity(&self) -> int {
        self.cap as int
    }

    /// The page size the engine aligns to.
    pub closed spec fn page(&self) -> int {
        self.page_size as int
    }

    /// First file offset of the range.
    pub closed spec fn start(&self) -> int {
        self.start_pos as int
    }

    /// File offset just past the range.
    pub closed spec fn end(&self) -> int {
        self.end_pos as int
    }

    /// File offset of the next read to be asked for.
    pub closed spec fn cursor(&self) -> int {
        self.file_pos_cursor as int
    }

    /// All bytes handed to callers so far, in order.
    pub closed spec fn delivered(&self) -> Seq<u8> {
        self.delivered@
    }

    /// The consumer-side cursor.
    pub closed spec fn data_pos(&self) -> BufferDataPos {
        self.pos
    }

    /// File offset of the next byte to hand out.
    pub closed spec fn stream_pos(&self) -> int {
        self.start_pos + self.delivered@.len()
    }

    /// Whether every buffer has had its first request.
    pub closed spec fn primed(&self) -> bool {
        self.primed == self.status@.len()
    }

    /// How many buffers have had their first request.
    pub closed spec fn primed_count(&self) -> int {
        self.primed as int
    }

    /// The range is used up: every later poll returns at once.
    pub closed spec fn at_end(&self) -> bool {
        &&& self.primed()
        &&& self.status@[self.pos.buf_idx as int] == BufferStatus::Invalid
    }

    /// Buffer `b` has a request that the caller has not completed yet.
    pub closed spec fn in_flight(&self, b: int) -> bool {
        &&& 0 <= b < self.num()
        &&& self.status@[b] == BufferStatus::Ready4Submit
        &&& self.rank(b) < self.primed
    }

    /// The current buffer is in flight and nothing else can be done before it completes.
    pub closed spec fn waiting(&self) -> bool {
        &&& self.primed()
        &&& self.in_flight(self.pos.buf_idx as int)
    }

    /// File offset of buffer `b`'s last request.
    pub closed spec fn request_offset(&self, b: int) -> int {
        self.buf_pos@[b] as int
    }

    /// Length of buffer `b`'s last request.
    pub closed spec fn request_len(&self, b: int) -> int {
        self.req_len@[b] as int
    }

    /// Status of buffer `b`.
    pub closed spec fn status_of(&self, b: int) -> BufferStatus {
        self.status@[b]
    }

    /// The valid bytes of buffer `b`.
    pub closed spec fn buffer_bytes(&self, b: int) -> Seq<u8> {
        self.buffers@[b].data@.subrange(0, self.buffers@[b].len as int)
    }

    /// Next buffer in round-robin order.
    pub closed spec fn succ(&self, b: int) -> int {
        if b + 1 < self.num() {
            b + 1
        } else {
            0
        }
    }

    /// How many steps after the current buffer `b` comes.
    pub closed spec fn rank(&self, b: int) -> int {
        let c = self.pos.buf_idx as int;
        if b >= c {
            b - c
        } else {
            b + self.num() - c
        }
    }

    /// File offset of the first byte of the current buffer.
    pub closed spec fn head(&self) -> int {
        self.stream_pos() - self.pos.offset
    }

    closed spec fn buf_ok(&self, b: int) -> bool {
        let st = self.status@[b];
        &&& self.buffers@[b].wf()
        &&& self.buffers@[b].cap == self.cap
        &&& self.rank(b) >= self.primed ==> st == BufferStatus::Ready4Submit
        &&& (self.rank(b) < self.primed && st != BufferStatus::Invalid) ==> {
            &&& self.buf_pos@[b] < self.end_pos
            &&& (self.buf_pos@[b] as int) % (self.cap as int) == 0
            &&& self.req_len@[b] == min_int(self.cap as int, self.end_pos - self.buf_pos@[b])
            &&& st == BufferStatus::Ready4Process ==> self.buffers@[b].len == self.req_len@[b]
        }
    }

    closed spec fn link_ok(&self, b: int) -> bool {
        let n = self.succ(b);
        self.rank(b) + 1 < self.primed ==> {
            &&& self.status@[b] == BufferStatus::Invalid ==> self.status@[n]
                == BufferStatus::Invalid
            &&& self.status@[b] != BufferStatus::Invalid ==> {
                &&& (self.status@[n] == BufferStatus::Invalid <==> self.buf_pos@[b]
                    + self.req_len@[b] >= self.end_pos)
                &&& self.status@[n] != BufferStatus::Invalid ==> self.buf_pos@[n]
                    == self.buf_pos@[b] + self.req_len@[b]
            }
        }
    }

    closed spec fn last_ok(&self, b: int) -> bool {
        self.rank(b) + 1 == self.primed ==> {
            &&& self.status@[b] == BufferStatus::Invalid ==> self.file_pos_cursor == self.end_pos
            &&& self.status@[b] != BufferStatus::Invalid ==> self.file_pos_cursor
                == self.buf_pos@[b] + self.req_len@[b]
        }
    }

    /// The engine's invariant: the pool is laid out in file order from the current buffer on.
    pub closed spec fn wf(&self) -> bool {
        let c = self.pos.buf_idx as int;
        &&& self.page_size > 0
        &&& self.cap > 0
        &&& self.cap % self.page_size == 0
        &&& self.start_pos <= self.end_pos
        &&& self.num() > 0
        &&& self.buffers@.len() == self.num()
        &&& self.buf_pos@.len() == self.num()
        &&& self.req_len@.len() == self.num()
        &&& c < self.num()
        &&& self.primed <= self.num()
        &&& self.primed < self.num() ==> c == 0
        &&& self.file_pos_cursor <= self.end_pos
        &&& self.file_pos_cursor < self.end_pos ==> (self.file_pos_cursor as int) % (self.cap as int) == 0
        &&& self.primed == 0 ==> {
            &&& self.file_pos_cursor == self.head()
            &&& self.pos.offset < self.cap
            &&& self.delivered@.len() == 0
        }
        &&& 0 <= self.head()
        &&& self.stream_pos() <= self.end_pos
        &&& (self.primed > 0 && self.status@[c] != BufferStatus::Invalid) ==> {
            &&& self.buf_pos@[c] == self.head()
            &&& self.pos.offset <= self.req_len@[c]
        }
        &&& (self.primed > 0 && self.status@[c] == BufferStatus::Invalid) ==> self.stream_pos()
            == self.end_pos
        &&& forall|b: int| 0 <= b < self.num() ==> #[trigger] self.buf_ok(b)
        &&& forall|b: int| 0 <= b < self.num() ==> #[trigger] self.link_ok(b)
        &&& forall|b: int| 0 <= b < self.num() ==> #[trigger] self.last_ok(b)
    }

    /// The bytes handed out, and those held in ready buffers, are those of `file`.
    pub closed spec fn sound(&self, file: Seq<u8>) -> bool {
        &&& self.end_pos <= file.len()
        &&& self.delivered@ == file.subrange(self.start_pos as int, self.stream_pos())
        &&& forall|b: int|
            0 <= b < self.num() && #[trigger] self.status@[b] == BufferStatus::Ready4Process
                ==> self.buffers@[b].data@.subrange(0, self.buffers@[b].len as int)
                == file.subrange(self.buf_pos@[b] as int, self.buf_pos@[b] + self.buffers@[b].len)
    }

    /// A reader over `[start_pos, end)` of a file of `file_len` bytes, where `end` is
    /// `end_pos` or else `file_len`, with `num_buffers` buffers of `buffer_capacity` bytes.
    /// Nothing is asked for yet: the first poll primes the pool.
    pub fn new(
        start_pos: u64,
        buffer_capacity: usize,
        num_buffers: usize,
        page_size: usize,
        file_len: u64,
        end_pos: Option<u64>,
    ) -> (r: Result<Self, FioxError>)
        ensures
            match reader_config_error(
                start_pos,
                buffer_capacity,
                num_buffers,
                page_size,
                file_len,
                end_pos,
            ) {
                Some(e) => r == Err::<Self, FioxError>(e),
                None => r is Ok,
            },
            r matches Ok(s) ==> {
                &&& s.wf()
                &&& s.start() == start_pos
                &&& s.end() == match end_pos {
                    Some(e) => e,
                    None => file_len,
                }
                &&& s.capacity() == buffer_capacity
                &&& s.page() == page_size
                &&& s.num() == num_buffers
                &&& s.delivered() == Seq::<u8>::empty()
                &&& !s.primed()
                &&& s.primed_count() == 0
                &&& s.data_pos() == (BufferDataPos {
                    buf_idx: 0,
                    offset: (start_pos % buffer_capacity as u64) as usize,
                })
                &&& s.cursor() == start_pos - (start_pos as int) % (buffer_capacity as int)
                &&& forall|file: Seq<u8>| s.end() <= file.len() ==> #[trigger] s.sound(file)
            },
    {
        let end: u64 = match end_pos {
            Some(e) => e,
            None => file_len,
        };
        if page_size == 0 {
            return Err(FioxError::ZeroPageSize);
        }
        if buffer_capacity == 0 || buffer_capacity % page_size != 0 {
            return Err(FioxError::MisalignedCapacity);
        }
        if num_buffers == 0 {
            return Err(FioxError::EmptyPool);
        }
        if end > file_len {
            return Err(FioxError::EndPastFile);
        }
        if start_pos > end {
            return Err(FioxError::StartPastEnd);
        }
        let offset: u64 = start_pos % (buffer_capacity as u64);
        assert(offset <= start_pos) by (nonlinear_arith)
            requires
                offset == start_pos % (buffer_capacity as u64),
                buffer_capacity > 0,
        ;
        let mut buffers: Vec<ReaderBuffer> = Vec::new();
        let mut status: Vec<BufferStatus> = Vec::new();
        let mut buf_pos: Vec<u64> = Vec::new();
        let mut req_len: Vec<usize> = Vec::new();
        let mut i: usize = 0;
        while i < num_buffers
            invariant
                i <= num_buffers,
                page_size > 0,
                buffer_capacity % page_size == 0,
                buffers@.len() == i,
                status@.len() == i,
                buf_pos@.len() == i,
                req_len@.len() == i,
                forall|b: int| 0 <= b < i ==> (#[trigger] buffers@[b]).wf(),
                forall|b: int| 0 <= b < i ==> (#[trigger] buffers@[b]).cap == buffer_capacity,
                forall|b: int| 0 <= b < i ==> #[trigger] status@[b] == BufferStatus::Ready4Submit,
            decreases num_buffers - i,
        {
            let nb = ReaderBuffer::new(buffer_capacity, page_size);
            let ghost b0 = buffers@;
            let ghost s0 = status@;
            buffers.push(nb);
            status.push(BufferStatus::Ready4Submit);
            buf_pos.push(0);
            req_len.push(0);
            assert(buffers@ == b0.push(nb));
            assert(status@ == s0.push(BufferStatus::Ready4Submit));
            i = i + 1;
        }
        let s = ReaderState {
            cap: buffer_capacity,
            page_size,
            start_pos,
            end_pos: end,
            buffers,
            status,
            buf_pos,
            req_len,
            pos: BufferDataPos { buf_idx: 0, offset: offset as usize },
            file_pos_cursor: start_pos - offset,
            primed: 0,
            delivered: Ghost(Seq::empty()),
        };
        proof {
            assert forall|b: int| 0 <= b < s.num() implies s.buf_ok(b) && s.link_ok(b) && s.last_ok(
                b,
            ) by {
                assert(s.buffers@[b].wf());
            }
            assert((start_pos - offset) as int % (buffer_capacity as int) == 0) by (nonlinear_arith)
                requires
                    offset == start_pos % (buffer_capacity as u64),
                    buffer_capacity > 0,
            ;
            assert forall|file: Seq<u8>| s.end() <= file.len() implies #[trigger] s.sound(file) by {
                assert(s.delivered@ =~= file.subrange(start_pos as int, s.stream_pos()));
            }
        }
        Ok(s)
    }

    /// Decides buffer `b`'s next request at the file cursor: none past the end (the
    /// buffer turns `Invalid`), a conventional read for a range shorter than a buffer,
    /// else a direct read of a whole buffer.
    fn plan(&mut self, b: usize) -> (r: Option<ReadRequest>)
        requires
            b < old(self).status@.len(),
            old(self).buf_pos@.len() == old(self).status@.len(),
            old(self).req_len@.len() == old(self).status@.len(),
            old(self).cap > 0,
            old(self).page_size > 0,
            old(self).cap % old(self).page_size == 0,
            old(self).file_pos_cursor <= old(self).end_pos,
            old(self).file_pos_cursor < old(self).end_pos ==> (old(self).file_pos_cursor as int) % (
            old(self).cap as int) == 0,
        ensures
            final(self).file_pos_cursor <= final(self).end_pos,
            final(self).file_pos_cursor < final(self).end_pos ==> (final(self).file_pos_cursor as int)
                % (final(self).cap as int) == 0,
            r matches Some(q) ==> (q.offset as int) % (old(self).page_size as int) == 0,
            final(self).cap == old(self).cap,
            final(self).page_size == old(self).page_size,
            final(self).start_pos == old(self).start_pos,
            final(self).end_pos == old(self).end_pos,
            final(self).buffers == old(self).buffers,
            final(self).pos == old(self).pos,
            final(self).primed == old(self).primed,
            final(self).delivered == old(self).delivered,
            old(self).file_pos_cursor >= old(self).end_pos ==> {
                &&& r is None
                &&& final(self).status@ == old(self).status@.update(
                    b as int,
                    BufferStatus::Invalid,
                )
                &&& final(self).buf_pos == old(self).buf_pos
                &&& final(self).req_len == old(self).req_len
                &&& final(self).file_pos_cursor == old(self).file_pos_cursor
            },
            old(self).file_pos_cursor < old(self).end_pos ==> {
                let len = min_int(old(self).cap as int, old(self).end_pos - old(self).file_pos_cursor);
                &&& r == Some(
                    ReadRequest {
                        buf_idx: b,
                        offset: old(self).file_pos_cursor,
                        len: len as usize,
                        direct: len == old(self).cap,
                    },
                )
                &&& final(self).status@ == old(self).status@.update(
                    b as int,
                    BufferStatus::Ready4Submit,
                )
                &&& final(self).buf_pos@ == old(self).buf_pos@.update(
                    b as int,
                    old(self).file_pos_cursor,
                )
                &&& final(self).req_len@ == old(self).req_len@.update(b as int, len as usize)
                &&& final(self).file_pos_cursor == old(self).file_pos_cursor + len
            },
    {
        let cursor = self.file_pos_cursor;
        if cursor >= self.end_pos {
            self.status.set(b, BufferStatus::Invalid);
            return None;
        }
        let room: u64 = self.end_pos - cursor;
        let len: usize = if room < self.cap as u64 {
            room as usize
        } else {
            self.cap
        };
        self.status.set(b, BufferStatus::Ready4Submit);
        self.buf_pos.set(b, cursor);
        self.req_len.set(b, len);
        self.file_pos_cursor = cursor + len as u64;
        proof {
            lemma_multiple_of_multiple(cursor as int, self.cap as int, self.page_size as int);
            if len == self.cap {
                assert((cursor + len) as int % (self.cap as int) == 0) by (nonlinear_arith)
                    requires
                        (cursor as int) % (self.cap as int) == 0,
                        len == self.cap,
                        self.cap > 0,
                ;
            }
        }
        Some(ReadRequest { buf_idx: b, offset: cursor, len, direct: len == self.cap })
    }

    /// `q` is the request just made of buffer `q.buf_idx`, at the former cursor `from`.
    pub open spec fn issued(&self, q: ReadRequest, from: int) -> bool {
        &&& self.in_flight(q.buf_idx as int)
        &&& self.request_offset(q.buf_idx as int) == q.offset
        &&& self.request_len(q.buf_idx as int) == q.len
        &&& q.offset == from
        &&& self.cursor() == q.offset + q.len
        &&& 0 < q.len <= self.capacity()
        &&& q.offset + q.len <= self.end()
        &&& (q.offset as int) % self.page() == 0
        &&& q.direct <==> q.len == self.capacity()
        &&& q.direct ==> (q.len as int) % self.page() == 0
        &&& !q.direct ==> q.offset + q.len == self.end()
    }

    /// Gives the next buffer of the priming pass its first request.
    fn prime_next(&mut self) -> (r: Option<ReadRequest>)
        requires
            old(self).wf(),
            old(self).primed < old(self).status@.len(),
        ensures
            final(self).wf(),
            final(self).primed == old(self).primed + 1,
            final(self).start_pos == old(self).start_pos,
            final(self).end_pos == old(self).end_pos,
            final(self).cap == old(self).cap,
            final(self).page_size == old(self).page_size,
            final(self).status@.len() == old(self).status@.len(),
            final(self).pos == old(self).pos,
            final(self).delivered == old(self).delivered,
            forall|file: Seq<u8>| #[trigger] old(self).sound(file) ==> final(self).sound(file),
            old(self).file_pos_cursor >= old(self).end_pos ==> {
                &&& r is None
                &&& final(self).file_pos_cursor == old(self).file_pos_cursor
            },
            old(self).file_pos_cursor < old(self).end_pos ==> {
                let len = min_int(old(self).cap as int, old(self).end_pos - old(self).file_pos_cursor);
                r == Some(
                    ReadRequest {
                        buf_idx: old(self).primed,
                        offset: old(self).file_pos_cursor,
                        len: len as usize,
                        direct: len == old(self).cap,
                    },
                )
            },
            r matches Some(q) ==> final(self).issued(q, old(self).cursor()),
    {
        let b = self.primed;
        let n_buf = self.status.len();
        let ghost s0 = *self;
        let q = self.plan(b);
        self.primed = self.primed + 1;
        proof {
            assert forall|x: int| 0 <= x < self.num() implies self.buf_ok(x) && self.link_ok(x)
                && self.last_ok(x) by {
                assert(s0.buf_ok(x) && s0.link_ok(x) && s0.last_ok(x));
                if x + 1 == b {
                    assert(s0.last_ok(x));
                }
            }
            assert forall|file: Seq<u8>| #[trigger] old(self).sound(file) implies self.sound(file) by {
                assert(s0.sound(file));
                assert forall|x: int|
                    0 <= x < self.num() && #[trigger] self.status@[x]
                        == BufferStatus::Ready4Process implies self.buffers@[x].data@.subrange(
                    0,
                    self.buffers@[x].len as int,
                ) == file.subrange(self.buf_pos@[x] as int, self.buf_pos@[x] + self.buffers@[x].len) by {
                    assert(s0.status@[x] == BufferStatus::Ready4Process);
                }
            }
        }
        q
    }

    /// Copies what the current, ready buffer still holds into `out[*filled..]`, as far
    /// as `out` has room.
    fn take(&mut self, out: &mut [u8], filled: &mut usize)
        requires
            old(self).wf(),
            old(self).primed(),
            old(self).status@[old(self).pos.buf_idx as int] == BufferStatus::Ready4Process,
            *old(filled) < old(out)@.len(),
        ensures
            final(self).wf(),
            final(self).start_pos == old(self).start_pos,
            final(self).end_pos == old(self).end_pos,
            final(self).cap == old(self).cap,
            final(self).page_size == old(self).page_size,
            final(self).status == old(self).status,
            final(self).buffers == old(self).buffers,
            final(self).primed == old(self).primed,
            final(self).file_pos_cursor == old(self).file_pos_cursor,
            final(self).pos.buf_idx == old(self).pos.buf_idx,
            final(self).head() == old(self).head(),
            *old(filled) <= *final(filled) <= final(out)@.len(),
            final(out)@.len() == old(out)@.len(),
            forall|k: int|
                0 <= k < *old(filled) || *final(filled) <= k < final(out)@.len() ==> final(out)@[k]
                    == old(out)@[k],
            final(self).delivered@ == old(self).delivered@ + final(out)@.subrange(
                *old(filled) as int,
                *final(filled) as int,
            ),
            *final(filled) > *old(filled) || final(self).pos.offset == final(self).buffers@[
                final(self).pos.buf_idx as int].len,
            forall|file: Seq<u8>| #[trigger] old(self).sound(file) ==> final(self).sound(file),
    {
        let c = self.pos.buf_idx;
        let ghost s0 = *self;
        let ghost out0 = out@;
        let off = self.pos.offset;
        assert(self.buf_ok(c as int));
        let avail = self.buffers[c].len - off;
        let want = out.len() - *filled;
        let n = if avail < want {
            avail
        } else {
            want
        };
        let at = *filled;
        copy_out(self.buffers[c].data.as_slice(), off, out, at, n);
        self.pos.offset = off + n;
        *filled = at + n;
        proof {
            let fresh = out@.subrange(at as int, at + n);
            assert(fresh =~= s0.buffers@[c as int].data@.subrange(off as int, off + n));
            self.delivered = Ghost(s0.delivered@ + fresh);
            assert forall|k: int|
                0 <= k < at || *filled <= k < out@.len() implies out@[k] == out0[k] by {}
            assert forall|x: int| 0 <= x < self.num() implies self.buf_ok(x) && self.link_ok(x)
                && self.last_ok(x) by {
                assert(s0.buf_ok(x) && s0.link_ok(x) && s0.last_ok(x));
            }
            assert forall|file: Seq<u8>| #[trigger] old(self).sound(file) implies self.sound(file) by {
                assert(s0.sound(file));
                assert(s0.status@[c as int] == BufferStatus::Ready4Process);
                let d = s0.buffers@[c as int].data@;
                let len = s0.buffers@[c as int].len as int;
                let bp = s0.buf_pos@[c as int] as int;
                assert(d.subrange(0, len) == file.subrange(bp, bp + len));
                assert forall|k: int| 0 <= k < n implies fresh[k] == file[bp + off + k] by {
                    assert(d.subrange(0, len)[off + k] == d[off + k]);
                    assert(file.subrange(bp, bp + len)[off + k] == file[bp + off + k]);
                }
                assert(fresh =~= file.subrange(s0.stream_pos(), s0.stream_pos() + n));
                assert(self.delivered@ =~= file.subrange(self.start_pos as int, self.stream_pos()));
            }
        }
    }

    /// Hands the drained current buffer back for its next request and moves on to the
    /// next buffer of the pool.
    fn recycle(&mut self) -> (r: Option<ReadRequest>)
        requires
            old(self).wf(),
            old(self).primed(),
            old(self).status@[old(self).pos.buf_idx as int] == BufferStatus::Ready4Process,
            old(self).pos.offset == old(self).buffers@[old(self).pos.buf_idx as int].len,
        ensures
            final(self).wf(),
            final(self).start_pos == old(self).start_pos,
            final(self).end_pos == old(self).end_pos,
            final(self).cap == old(self).cap,
            final(self).page_size == old(self).page_size,
            final(self).status@.len() == old(self).status@.len(),
            final(self).primed == old(self).primed,
            final(self).delivered == old(self).delivered,
            final(self).head() > old(self).head(),
            forall|file: Seq<u8>| #[trigger] old(self).sound(file) ==> final(self).sound(file),
            r is None ==> final(self).file_pos_cursor == old(self).file_pos_cursor,
            r matches Some(q) ==> final(self).issued(q, old(self).cursor()),
    {
        let c = self.pos.buf_idx;
        let n_buf = self.status.len();
        let ghost s1 = *self;
        assert(self.buf_ok(c as int));
        self.status.set(c, BufferStatus::Ready4Submit);
        let next: usize = if c + 1 < n_buf {
            c + 1
        } else {
            0
        };
        self.pos = BufferDataPos { buf_idx: next, offset: 0 };
        let q = self.plan(c);
        proof {
            assert(s1.link_ok(c as int) && s1.last_ok(c as int));
            assert forall|x: int| 0 <= x < self.num() implies self.buf_ok(x) && self.link_ok(x)
                && self.last_ok(x) by {
                assert(s1.buf_ok(x) && s1.link_ok(x) && s1.last_ok(x));
            }
            assert forall|file: Seq<u8>| #[trigger] old(self).sound(file) implies self.sound(file) by {
                assert(s1.sound(file));
                assert forall|x: int|
                    0 <= x < self.num() && #[trigger] self.status@[x]
                        == BufferStatus::Ready4Process implies self.buffers@[x].data@.subrange(
                    0,
                    self.buffers@[x].len as int,
                ) == file.subrange(self.buf_pos@[x] as int, self.buf_pos@[x] + self.buffers@[x].len) by {
                    assert(s1.status@[x] == BufferStatus::Ready4Process);
                }
            }
        }
        q
    }

    /// Moves bytes of the stream into `out[*filled..]`, advancing `*filled`, until `out`
    /// is full, the range is used up, or the caller must do something first.
    /// On the first call every buffer gets its first request, one per return.
    pub fn poll_read(&mut self, out: &mut [u8], filled: &mut usize) -> (r: ReadAction)
        requires
            old(self).wf(),
            *old(filled) <= old(out)@.len(),
        ensures
            final(self).wf(),
            final(self).start() == old(self).start(),
            final(self).end() == old(self).end(),
            final(self).capacity() == old(self).capacity(),
            final(self).page() == old(self).page(),
            final(self).num() == old(self).num(),
            *old(filled) <= *final(filled) <= final(out)@.len(),
            final(out)@.len() == old(out)@.len(),
            forall|k: int|
                0 <= k < *old(filled) || *final(filled) <= k < final(out)@.len() ==> final(out)@[k]
                    == old(out)@[k],
            final(self).delivered() == old(self).delivered() + final(out)@.subrange(
                *old(filled) as int,
                *final(filled) as int,
            ),
            forall|file: Seq<u8>| #[trigger] old(self).sound(file) ==> final(self).sound(file),
            old(self).at_end() ==> {
                &&& r == ReadAction::Done(*old(filled))
                &&& *final(self) == *old(self)
                &&& *final(filled) == *old(filled)
                &&& final(out)@ == old(out)@
            },
            r matches ReadAction::Done(n) ==> {
                &&& n == *final(filled)
                &&& (n == final(out)@.len() || final(self).at_end())
            },
            r is Wait ==> *final(filled) < final(out)@.len() && final(self).waiting(),
            !(r is Submit) ==> final(self).cursor() == old(self).cursor(),
            !old(self).primed() && old(self).cursor() < old(self).end() ==> {
                let len = min_int(old(self).capacity(), old(self).end() - old(self).cursor());
                r == ReadAction::Submit(
                    ReadRequest {
                        buf_idx: old(self).primed_count() as usize,
                        offset: old(self).cursor() as u64,
                        len: len as usize,
                        direct: len == old(self).capacity(),
                    },
                )
            },
            r matches ReadAction::Submit(q) ==> final(self).issued(q, old(self).cursor()),
    {
        let n_buf: usize = self.status.len();
        let ghost filled0: usize = *filled;
        loop
            invariant_except_break
                n_buf == self.status@.len(),
                self.wf(),
                self.start_pos == old(self).start_pos,
                self.end_pos == old(self).end_pos,
                self.cap == old(self).cap,
                self.page_size == old(self).page_size,
                self.status@.len() == old(self).status@.len(),
                self.file_pos_cursor == old(self).file_pos_cursor,
                filled0 == *old(filled),
                filled0 <= *filled <= out@.len(),
                out@.len() == old(out)@.len(),
                forall|k: int|
                    0 <= k < filled0 || *filled <= k < out@.len() ==> out@[k] == old(out)@[k],
                self.delivered@ == old(self).delivered@ + out@.subrange(filled0 as int, *filled as int),
                forall|file: Seq<u8>| #[trigger] old(self).sound(file) ==> self.sound(file),
                old(self).at_end() ==> *self == *old(self) && *filled == filled0 && out@ == old(out)@,
                old(self).primed <= n_buf,
                old(self).primed < n_buf && old(self).file_pos_cursor < old(self).end_pos
                    ==> self.primed == old(self).primed,
            decreases n_buf - self.primed, out@.len() - *filled, self.end_pos - self.head(),
        {
            if self.primed < n_buf {
                match self.prime_next() {
                    Some(q) => {
                        return ReadAction::Submit(q);
                    },
                    None => {},
                }
            } else {
                let c = self.pos.buf_idx;
                if *filled == out.len() {
                    return ReadAction::Done(*filled);
                }
                match self.status[c] {
                    BufferStatus::Invalid => {
                        return ReadAction::Done(*filled);
                    },
                    BufferStatus::Ready4Submit => {
                        return ReadAction::Wait;
                    },
                    BufferStatus::Ready4Process => {
                        let ghost out1 = out@;
                        let ghost f1 = *filled;
                        let ghost d1 = self.delivered@;
                        self.take(out, filled);
                        proof {
                            assert(out@.subrange(filled0 as int, f1 as int) =~= out1.subrange(
                                filled0 as int,
                                f1 as int,
                            ));
                            assert(out@.subrange(filled0 as int, *filled as int) =~= out@.subrange(
                                filled0 as int,
                                f1 as int,
                            ) + out@.subrange(f1 as int, *filled as int));
                            assert(self.delivered@ =~= old(self).delivered@ + out@.subrange(
                                filled0 as int,
                                *filled as int,
                            ));
                        }
                        if self.pos.offset == self.buffers[c].len {
                            match self.recycle() {
                                Some(q) => {
                                    return ReadAction::Submit(q);
                                },
                                None => {},
                            }
                        }
                    },
                }
            }
        }
    }

    /// Hands the reader the bytes of buffer `buf_idx`'s request: a completion of a direct
    /// read, or the result of a conventional read. A completion for a buffer with no
    /// request in flight, or of another length than was asked, is refused.
    pub fn complete(&mut self, buf_idx: usize, data: &[u8]) -> (r: Result<(), FioxError>)
        requires
            old(self).wf(),
        ensures
            final(self).wf(),
            !old(self).in_flight(buf_idx as int) ==> {
                &&& r == Err::<(), FioxError>(FioxError::UnexpectedCompletion)
                &&& *final(self) == *old(self)
            },
            old(self).in_flight(buf_idx as int) && data@.len() != old(self).request_len(
                buf_idx as int,
            ) ==> {
                &&& r == Err::<(), FioxError>(FioxError::ShortTransfer)
                &&& *final(self) == *old(self)
            },
            old(self).in_flight(buf_idx as int) && data@.len() == old(self).request_len(
                buf_idx as int,
            ) ==> {
                &&& r is Ok
                &&& final(self).status_of(buf_idx as int) == BufferStatus::Ready4Process
                &&& final(self).buffer_bytes(buf_idx as int) == data@
                &&& forall|b: int|
                    0 <= b < old(self).num() && b != buf_idx ==> #[trigger] final(self).status_of(b)
                        == old(self).status_of(b)
            },
            final(self).start() == old(self).start(),
            final(self).end() == old(self).end(),
            final(self).capacity() == old(self).capacity(),
            final(self).page() == old(self).page(),
            final(self).num() == old(self).num(),
            final(self).cursor() == old(self).cursor(),
            final(self).delivered() == old(self).delivered(),
            final(self).data_pos() == old(self).data_pos(),
            final(self).primed() == old(self).primed(),
            forall|file: Seq<u8>|
                #[trigger] old(self).sound(file) && data@ == file.subrange(
                    old(self).request_offset(buf_idx as int),
                    old(self).request_offset(buf_idx as int) + old(self).request_len(buf_idx as int),
                ) ==> final(self).sound(file),
    {
        let n_buf = self.status.len();
        if buf_idx >= n_buf {
            return Err(FioxError::UnexpectedCompletion);
        }
        let c = self.pos.buf_idx;
        let rank: usize = if buf_idx >= c {
            buf_idx - c
        } else {
            buf_idx + (n_buf - c)
        };
        if self.status[buf_idx] != BufferStatus::Ready4Submit || rank >= self.primed {
            return Err(FioxError::UnexpectedCompletion);
        }
        let n = data.len();
        if n != self.req_len[buf_idx] {
            return Err(FioxError::ShortTransfer);
        }
        let ghost s0 = *self;
        assert(self.buf_ok(buf_idx as int));
        self.buffers[buf_idx].data.copy_in(0, data, 0, n);
        self.buffers[buf_idx].len = n;
        self.status.set(buf_idx, BufferStatus::Ready4Process);
        proof {
            let d = self.buffers@[buf_idx as int].data@;
            assert(d.subrange(0, n as int) =~= data@);
            assert forall|x: int| 0 <= x < self.num() implies self.buf_ok(x) && self.link_ok(x)
                && self.last_ok(x) by {
                assert(s0.buf_ok(x) && s0.link_ok(x) && s0.last_ok(x));
            }
            assert forall|file: Seq<u8>|
                #[trigger] old(self).sound(file) && data@ == file.subrange(
                    old(self).request_offset(buf_idx as int),
                    old(self).request_offset(buf_idx as int) + old(self).request_len(buf_idx as int),
                ) implies self.sound(file) by {
                assert forall|x: int|
                    0 <= x < self.num() && #[trigger] self.status@[x]
                        == BufferStatus::Ready4Process implies self.buffers@[x].data@.subrange(
                    0,
                    self.buffers@[x].len as int,
                ) == file.subrange(self.buf_pos@[x] as int, self.buf_pos@[x] + self.buffers@[x].len) by {
                    if x != buf_idx {
                        assert(s0.status@[x] == BufferStatus::Ready4Process);
                    }
                }
            }
        }
        Ok(())
    }
}

/// Once a poll has come back short, the bytes handed out so far are exactly the bytes of
/// the file from the start of the range to its end, in order.
pub proof fn lemma_short_read_yields_range(s: &ReaderState, file: Seq<u8>)
    requires
        s.wf(),
        s.sound(file),
        s.at_end(),
    ensures
        s.delivered() == file.subrange(s.start(), s.end()),
        s.delivered().len() == s.end() - s.start(),
{
}

} // verus!
