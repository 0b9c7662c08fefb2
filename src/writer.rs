use vstd::prelude::*;

use crate::buffer::{overlay, ReaderBuffer};
use crate::buffer_aux::{BufferDataPos, BufferStatus};
use crate::error::FioxError;
use crate::reader::ReaderState;

verus! {

/// One write that the writer asks its caller to perform: the whole of buffer `buf_idx`
/// (`len` bytes) at file offset `offset`, by direct I/O.
#[derive(Debug, Clone, Copy, PartialEq, Eq, Structural)]
pub struct WriteRequest {
    pub buf_idx: usize,
    pub offset: u64,
    pub len: usize,
}

/// What the caller of `poll_write` does next.
#[derive(Debug, Clone, Copy, PartialEq, Eq, Structural)]
pub enum WriteAction {
    /// Write this buffer, then poll again.
    Submit(WriteRequest),
    /// Wait for one completion, hand it to `complete`, then poll again.
    Wait,
    /// All of the input has been taken.
    Done,
}

/// What the caller of `poll_finish` does next.
#[derive(Debug, Clone, Copy, PartialEq, Eq, Structural)]
pub enum FinishAction {
    /// Wait for one completion, hand it to `complete`, then poll again.
    Wait,
    /// Write the first `len` bytes of buffer `buf_idx` at `offset` by a conventional write;
    /// the writer is then closed.
    Tail { buf_idx: usize, offset: u64, len: usize },
    /// Nothing is left to write; the writer is closed.
    Done,
}

/// Why a writer from `start_pos` cannot be built, if it cannot.
pub open spec fn writer_config_error(
    start_pos: u64,
    buffer_capacity: usize,
    num_buffers: usize,
    page_size: usize,
) -> Option<FioxError> {
    if page_size == 0 {
        Some(FioxError::ZeroPageSize)
    } else if buffer_capacity == 0 || buffer_capacity % page_size != 0 {
        Some(FioxError::MisalignedCapacity)
    } else if start_pos % (page_size as u64) != 0 {
        Some(FioxError::MisalignedStart)
    } else if num_buffers == 0 {
        Some(FioxError::EmptyPool)
    } else {
        None
    }
}

/// The writing half of the engine: the caller's bytes fill the pool's buffers in turn,
/// and each full buffer is written at the next offset.
pub struct WriterState {
    cap: usize,
    page_size: usize,
    start_pos: u64,
    buffers: Vec<ReaderBuffer>,
    status: Vec<BufferStatus>,
    pos: BufferDataPos,
    file_pos_cursor: u64,
    closed: bool,
    accepted: Ghost<Seq<u8>>,
    writes: Ghost<Seq<(int, Seq<u8>)>>,
}

/// Write `w` (a file offset and the bytes put there) puts a byte at offset `p`.
pub open spec fn covers(w: (int, Seq<u8>), p: int) -> bool {
    w.0 <= p < w.0 + w.1.len()
}

/// Some write of `writes` puts a byte at offset `p`.
pub open spec fn covered(writes: Seq<(int, Seq<u8>)>, p: int) -> bool {
    exists|k: int| 0 <= k < writes.len() && covers(#[trigger] writes[k], p)
}

/// `file` holds every write of `writes`.
pub open spec fn applied(writes: Seq<(int, Seq<u8>)>, file: Seq<u8>) -> bool {
    forall|k: int|
        0 <= k < writes.len() ==> {
            &&& 0 <= (#[trigger] writes[k]).0
            &&& writes[k].0 + writes[k].1.len() <= file.len()
            &&& file.subrange(writes[k].0, writes[k].0 + writes[k].1.len()) == writes[k].1
        }
}

impl WriterState {
    /// Number of buffers in the pool.
    pub closed spec fn num(&self) -> int {
        self.status@.len() as int
    }

    /// Capacity of each buffer.
    pub closed spec fn capacity(&self) -> int {
        self.cap as int
    }

    /// The page size the engine aligns to.
    pub closed spec fn page(&self) -> int {
        self.page_size as int
    }

    /// File offset of the first byte written.
    pub closed spec fn start(&self) -> int {
        self.start_pos as int
    }

    /// File offset of the next direct write.
    pub closed spec fn cursor(&self) -> int {
        self.file_pos_cursor as int
    }

    /// The consumer-side cursor: where the next byte goes.
    pub closed spec fn data_pos(&self) -> BufferDataPos {
        self.pos
    }

    /// All bytes taken from callers so far, in order.
    pub closed spec fn accepted(&self) -> Seq<u8> {
        self.accepted@
    }

    /// The tail has been handed out; nothing more is written.
    pub closed spec fn is_closed(&self) -> bool {
        self.closed
    }

    /// Every write asked for so far, direct ones and the tail, in the order asked.
    pub closed spec fn writes(&self) -> Seq<(int, Seq<u8>)> {
        self.writes@
    }

    /// File offset up to which the writes asked for so far reach without a gap.
    pub closed spec fn covered_to(&self) -> int {
        if self.closed {
            self.start_pos + self.accepted@.len()
        } else {
            self.file_pos_cursor as int
        }
    }


    closed spec fn log_ok(&self) -> bool {
        &&& forall|k: int|
            0 <= k < self.writes@.len() ==> {
                &&& self.start_pos <= (#[trigger] self.writes@[k]).0
                &&& self.writes@[k].0 + self.writes@[k].1.len() <= self.start_pos
                    + self.accepted@.len()
                &&& self.writes@[k].1 == self.accepted@.subrange(
                    self.writes@[k].0 - self.start_pos,
                    self.writes@[k].0 - self.start_pos + self.writes@[k].1.len(),
                )
            }
        &&& forall|p: int|
            self.start_pos <= p < self.covered_to() ==> #[trigger] covered(self.writes@, p)
    }

    /// Buffer `b` has a write in flight.
    pub closed spec fn in_flight(&self, b: int) -> bool {
        0 <= b < self.num() && self.status@[b] == BufferStatus::Ready4Submit
    }

    /// Whether any write is in flight.
    pub closed spec fn any_in_flight(&self) -> bool {
        exists|b: int| #[trigger] self.in_flight(b)
    }

    /// The bytes of buffer `b`.
    pub closed spec fn buffer_data(&self, b: int) -> Seq<u8> {
        self.buffers@[b].data@
    }

    /// The engine's invariant.
    pub closed spec fn wf(&self) -> bool {
        let c = self.pos.buf_idx as int;
        &&& self.page_size > 0
        &&& self.cap > 0
        &&& self.cap % self.page_size == 0
        &&& (self.start_pos as int) % (self.page_size as int) == 0
        &&& self.num() > 0
        &&& self.buffers@.len() == self.num()
        &&& c < self.num()
        &&& self.pos.offset < self.cap
        &&& self.status@[c] == BufferStatus::Ready4Submit ==> self.pos.offset == 0
        &&& self.start_pos <= self.file_pos_cursor
        &&& (self.file_pos_cursor as int) % (self.page_size as int) == 0
        &&& self.accepted@.len() == self.file_pos_cursor - self.start_pos + self.pos.offset
        &&& self.start_pos + self.accepted@.len() <= u64::MAX
        &&& self.buffers@[c].data@.subrange(0, self.pos.offset as int) == self.accepted@.subrange(
            self.file_pos_cursor - self.start_pos,
            self.accepted@.len() as int,
        )
        &&& forall|b: int|
            0 <= b < self.num() ==> (#[trigger] self.buffers@[b]).wf() && self.buffers@[b].cap
                == self.cap
        &&& forall|b: int|
            0 <= b < self.num() ==> #[trigger] self.status@[b] != BufferStatus::Invalid
        &&& self.log_ok()
    }

    /// A writer that lays bytes down from `start_pos` on, with `num_buffers` buffers of
    /// `buffer_capacity` bytes.
    pub fn new(start_pos: u64, buffer_capacity: usize, num_buffers: usize, page_size: usize) -> (r:
        Result<Self, FioxError>)
        ensures
            match writer_config_error(start_pos, buffer_capacity, num_buffers, page_size) {
                Some(e) => r == Err::<Self, FioxError>(e),
                None => r is Ok,
            },
            r matches Ok(s) ==> {
                &&& s.wf()
                &&& s.start() == start_pos
                &&& s.cursor() == start_pos
                &&& s.capacity() == buffer_capacity
                &&& s.page() == page_size
                &&& s.num() == num_buffers
                &&& s.accepted() == Seq::<u8>::empty()
                &&& s.writes() == Seq::<(int, Seq<u8>)>::empty()
                &&& s.data_pos() == (BufferDataPos { buf_idx: 0, offset: 0 })
                &&& !s.any_in_flight()
                &&& !s.is_closed()
            },
    {
        if page_size == 0 {
            return Err(FioxError::ZeroPageSize);
        }
        if buffer_capacity == 0 || buffer_capacity % page_size != 0 {
            return Err(FioxError::MisalignedCapacity);
        }
        if start_pos % (page_size as u64) != 0 {
            return Err(FioxError::MisalignedStart);
        }
        if num_buffers == 0 {
            return Err(FioxError::EmptyPool);
        }
        let mut buffers: Vec<ReaderBuffer> = Vec::new();
        let mut status: Vec<BufferStatus> = Vec::new();
        let mut i: usize = 0;
        while i < num_buffers
            invariant
                i <= num_buffers,
                page_size > 0,
                buffer_capacity % page_size == 0,
                buffers@.len() == i,
                status@.len() == i,
                forall|b: int| 0 <= b < i ==> (#[trigger] buffers@[b]).wf(),
                forall|b: int| 0 <= b < i ==> (#[trigger] buffers@[b]).cap == buffer_capacity,
                forall|b: int| 0 <= b < i ==> #[trigger] status@[b] == BufferStatus::Ready4Process,
            decreases num_buffers - i,
        {
            let nb = ReaderBuffer::new(buffer_capacity, page_size);
            let ghost b0 = buffers@;
            let ghost s0 = status@;
            buffers.push(nb);
            status.push(BufferStatus::Ready4Process);
            assert(buffers@ == b0.push(nb));
            assert(status@ == s0.push(BufferStatus::Ready4Process));
            i = i + 1;
        }
        let s = WriterState {
            cap: buffer_capacity,
            page_size,
            start_pos,
            buffers,
            status,
            pos: BufferDataPos { buf_idx: 0, offset: 0 },
            file_pos_cursor: start_pos,
            closed: false,
            accepted: Ghost(Seq::empty()),
            writes: Ghost(Seq::empty()),
        };
        proof {
            assert(s.buffers@[0].data@.subrange(0, 0) =~= s.accepted@.subrange(0, 0));
            assert(!s.any_in_flight()) by {
                assert forall|b: int| !(#[trigger] s.in_flight(b)) by {
                    if 0 <= b < s.num() {
                        assert(s.status@[b] == BufferStatus::Ready4Process);
                    }
                }
            }
        }
        Ok(s)
    }

    /// Takes `data[*consumed..]` into the pool, advancing `*consumed`, until all of it is
    /// taken or the caller must do something first. Each buffer that fills up is asked
    /// to be written at the cursor, which then moves past it.
    pub fn poll_write(&mut self, data: &[u8], consumed: &mut usize) -> (r: WriteAction)
        requires
            old(self).wf(),
            !old(self).is_closed(),
            *old(consumed) <= data@.len(),
            old(self).start() + old(self).accepted().len() + data@.len() <= u64::MAX,
        ensures
            final(self).wf(),
            !final(self).is_closed(),
            final(self).start() == old(self).start(),
            final(self).capacity() == old(self).capacity(),
            final(self).page() == old(self).page(),
            final(self).num() == old(self).num(),
            *old(consumed) <= *final(consumed) <= data@.len(),
            final(self).accepted() == old(self).accepted() + data@.subrange(
                *old(consumed) as int,
                *final(consumed) as int,
            ),
            r is Done ==> *final(consumed) == data@.len(),
            r is Wait ==> *final(consumed) < data@.len(),
            r is Wait ==> {
                &&& *final(self) == *old(self)
                &&& *final(consumed) == *old(consumed)
                &&& old(self).in_flight(old(self).data_pos().buf_idx as int)
            },
            !old(self).in_flight(old(self).data_pos().buf_idx as int) && old(self).data_pos().offset
                + (data@.len() - *old(consumed)) < old(self).capacity() ==> r is Done,
            r is Wait ==> final(self).in_flight(final(self).data_pos().buf_idx as int),
            !(r is Submit) ==> final(self).cursor() == old(self).cursor(),
            !(r is Submit) ==> final(self).writes() == old(self).writes(),
            r matches WriteAction::Submit(q) ==> {
                &&& q.buf_idx == old(self).data_pos().buf_idx
                &&& final(self).writes() == old(self).writes().push(
                    (q.offset as int, final(self).buffer_data(q.buf_idx as int)),
                )
                &&& final(self).in_flight(q.buf_idx as int)
                &&& q.offset == old(self).cursor()
                &&& q.len == final(self).capacity()
                &&& final(self).cursor() == q.offset + q.len
                &&& (q.offset as int) % final(self).page() == 0
                &&& (q.len as int) % final(self).page() == 0
                &&& final(self).buffer_data(q.buf_idx as int) == final(self).accepted().subrange(
                    q.offset - final(self).start(),
                    q.offset - final(self).start() + q.len,
                )
            },
    {
        let n_buf: usize = self.status.len();
        let ghost consumed0: usize = *consumed;
        loop
            invariant_except_break
                n_buf == self.status@.len(),
                self.wf(),
                !self.closed,
                self.start_pos == old(self).start_pos,
                self.cap == old(self).cap,
                self.page_size == old(self).page_size,
                self.status@.len() == old(self).status@.len(),
                self.file_pos_cursor == old(self).file_pos_cursor,
                self.writes@ == old(self).writes@,
                self.pos.buf_idx == old(self).pos.buf_idx,
                self.status@ == old(self).status@,
                self.status@[self.pos.buf_idx as int] == BufferStatus::Ready4Submit ==> *self == *old(
                    self,
                ) && *consumed == consumed0,
                self.pos.offset + (data@.len() - *consumed) == old(self).pos.offset + (data@.len()
                    - consumed0),
                consumed0 == *old(consumed),
                consumed0 <= *consumed <= data@.len(),
                self.accepted@ == old(self).accepted@ + data@.subrange(
                    consumed0 as int,
                    *consumed as int,
                ),
                old(self).start() + old(self).accepted().len() + data@.len() <= u64::MAX,
            decreases data@.len() - *consumed,
        {
            if *consumed == data.len() {
                return WriteAction::Done;
            }
            let c = self.pos.buf_idx;
            if self.status[c] == BufferStatus::Ready4Submit {
                return WriteAction::Wait;
            }
            let ghost s0 = *self;
            let off = self.pos.offset;
            let room = self.cap - off;
            let want = data.len() - *consumed;
            let n = if room < want {
                room
            } else {
                want
            };
            let at = *consumed;
            assert(self.buffers@[c as int].wf());
            self.buffers[c].data.copy_in(off, data, at, n);
            self.pos.offset = off + n;
            *consumed = at + n;
            proof {
                let fresh = data@.subrange(at as int, at + n);
                self.accepted = Ghost(s0.accepted@ + fresh);
                assert(data@.subrange(consumed0 as int, *consumed as int) =~= data@.subrange(
                    consumed0 as int,
                    at as int,
                ) + fresh);
                assert(self.accepted@ =~= old(self).accepted@ + data@.subrange(
                    consumed0 as int,
                    *consumed as int,
                ));
                let base = self.file_pos_cursor - self.start_pos;
                assert(self.buffers@[c as int].data@.subrange(0, off + n) =~= s0.buffers@[
                c as int].data@.subrange(0, off as int) + fresh);
                assert(self.accepted@.subrange(base, self.accepted@.len() as int) =~= s0.accepted@.subrange(
                    base,
                    s0.accepted@.len() as int,
                ) + fresh);
                assert forall|b: int| 0 <= b < self.num() implies (#[trigger] self.buffers@[b]).wf()
                    && self.buffers@[b].cap == self.cap by {
                    assert(s0.buffers@[b].wf());
                }
                assert forall|k: int| 0 <= k < self.writes@.len() implies {
                    &&& self.start_pos <= (#[trigger] self.writes@[k]).0
                    &&& self.writes@[k].0 + self.writes@[k].1.len() <= self.start_pos
                        + self.accepted@.len()
                    &&& self.writes@[k].1 == self.accepted@.subrange(
                        self.writes@[k].0 - self.start_pos,
                        self.writes@[k].0 - self.start_pos + self.writes@[k].1.len(),
                    )
                } by {
                    let a = self.writes@[k].0 - self.start_pos;
                    let b = a + self.writes@[k].1.len();
                    assert(self.accepted@.subrange(a, b) =~= s0.accepted@.subrange(a, b));
                }
                assert(self.log_ok());
            }
            if off + n == self.cap {
                let ghost s1 = *self;
                let cursor = self.file_pos_cursor;
                self.status.set(c, BufferStatus::Ready4Submit);
                let next: usize = if c + 1 < n_buf {
                    c + 1
                } else {
                    0
                };
                self.pos = BufferDataPos { buf_idx: next, offset: 0 };
                self.file_pos_cursor = cursor + self.cap as u64;
                proof {
                    let w = (cursor as int, self.buffers@[c as int].data@);
                    self.writes = Ghost(s1.writes@.push(w));
                    assert(self.buffers@[c as int].data@ =~= self.buffers@[c as int].data@.subrange(
                        0,
                        self.cap as int,
                    ));
                    assert forall|k: int| 0 <= k < self.writes@.len() implies {
                        &&& self.start_pos <= (#[trigger] self.writes@[k]).0
                        &&& self.writes@[k].0 + self.writes@[k].1.len() <= self.start_pos
                            + self.accepted@.len()
                        &&& self.writes@[k].1 == self.accepted@.subrange(
                            self.writes@[k].0 - self.start_pos,
                            self.writes@[k].0 - self.start_pos + self.writes@[k].1.len(),
                        )
                    } by {
                        if k < s1.writes@.len() {
                            assert(self.writes@[k] == s1.writes@[k]);
                        }
                    }
                    assert forall|p: int|
                        self.start_pos <= p < self.covered_to() implies #[trigger] covered(
                        self.writes@,
                        p,
                    ) by {
                        if p < cursor {
                            assert(covered(s1.writes@, p));
                            let k = choose|k: int|
                                0 <= k < s1.writes@.len() && covers(#[trigger] s1.writes@[k], p);
                            assert(self.writes@[k] == s1.writes@[k]);
                        } else {
                            assert(covers(self.writes@[s1.writes@.len() as int], p));
                        }
                    }
                    assert((cursor + self.cap) as int % (self.page_size as int) == 0) by (
                    nonlinear_arith)
                        requires
                            (cursor as int) % (self.page_size as int) == 0,
                            (self.cap as int) % (self.page_size as int) == 0,
                            self.page_size > 0,
                    {
                        vstd::arithmetic::div_mod::lemma_mod_adds(
                            cursor as int,
                            self.cap as int,
                            self.page_size as int,
                        );
                    }
                    assert(self.buffers@[next as int].data@.subrange(0, 0) =~= self.accepted@.subrange(
                        self.file_pos_cursor - self.start_pos,
                        self.accepted@.len() as int,
                    ));
                    assert(self.buffers@[c as int].data@ =~= self.buffers@[c as int].data@.subrange(
                        0,
                        self.cap as int,
                    ));
                    assert forall|b: int| 0 <= b < self.num() implies #[trigger] self.status@[b]
                        != BufferStatus::Invalid by {
                        assert(s1.status@[b] != BufferStatus::Invalid);
                    }
                }
                return WriteAction::Submit(WriteRequest { buf_idx: c, offset: cursor, len: self.cap });
            }
        }
    }

    /// Records that buffer `buf_idx`'s write moved `transferred` bytes. A completion for
    /// a buffer with no write in flight, or of less than a whole buffer, is refused.
    pub fn complete(&mut self, buf_idx: usize, transferred: usize) -> (r: Result<(), FioxError>)
        requires
            old(self).wf(),
        ensures
            final(self).wf(),
            !old(self).in_flight(buf_idx as int) ==> {
                &&& r == Err::<(), FioxError>(FioxError::UnexpectedCompletion)
                &&& *final(self) == *old(self)
            },
            old(self).in_flight(buf_idx as int) && transferred != old(self).capacity() ==> {
                &&& r == Err::<(), FioxError>(FioxError::ShortTransfer)
                &&& *final(self) == *old(self)
            },
            old(self).in_flight(buf_idx as int) && transferred == old(self).capacity() ==> {
                &&& r is Ok
                &&& !final(self).in_flight(buf_idx as int)
                &&& forall|b: int|
                    b != buf_idx ==> #[trigger] final(self).in_flight(b) == old(self).in_flight(b)
            },
            final(self).start() == old(self).start(),
            final(self).capacity() == old(self).capacity(),
            final(self).page() == old(self).page(),
            final(self).num() == old(self).num(),
            final(self).cursor() == old(self).cursor(),
            final(self).accepted() == old(self).accepted(),
            final(self).data_pos() == old(self).data_pos(),
            final(self).is_closed() == old(self).is_closed(),
            final(self).writes() == old(self).writes(),
    {
        if buf_idx >= self.status.len() || self.status[buf_idx] != BufferStatus::Ready4Submit {
            return Err(FioxError::UnexpectedCompletion);
        }
        if transferred != self.cap {
            return Err(FioxError::ShortTransfer);
        }
        let ghost s0 = *self;
        self.status.set(buf_idx, BufferStatus::Ready4Process);
        proof {
            assert(s0.log_ok());
            assert forall|b: int| 0 <= b < self.num() implies #[trigger] self.status@[b]
                != BufferStatus::Invalid by {
                assert(s0.status@[b] != BufferStatus::Invalid);
            }
        }
        Ok(())
    }

    /// Closing: first every write in flight completes, then a partly filled buffer is
    /// handed out once for a conventional write at the cursor, and the writer is closed.
    pub fn poll_finish(&mut self) -> (r: FinishAction)
        requires
            old(self).wf(),
        ensures
            final(self).wf(),
            final(self).start() == old(self).start(),
            final(self).capacity() == old(self).capacity(),
            final(self).num() == old(self).num(),
            final(self).cursor() == old(self).cursor(),
            final(self).accepted() == old(self).accepted(),
            final(self).data_pos() == old(self).data_pos(),
            old(self).any_in_flight() ==> r is Wait && *final(self) == *old(self),
            !old(self).any_in_flight() ==> final(self).is_closed(),
            (!old(self).any_in_flight() && !old(self).is_closed() && old(self).data_pos().offset > 0)
                ==> r == (FinishAction::Tail {
                buf_idx: old(self).data_pos().buf_idx,
                offset: old(self).cursor() as u64,
                len: old(self).data_pos().offset,
            }),
            (!old(self).any_in_flight() && (old(self).is_closed() || old(self).data_pos().offset
                == 0)) ==> r is Done,
            !(r is Tail) ==> final(self).writes() == old(self).writes(),
            r matches FinishAction::Tail { buf_idx, offset, len } ==> {
                &&& final(self).writes() == old(self).writes().push(
                    (offset as int, final(self).buffer_data(buf_idx as int).subrange(0, len as int)),
                )
                &&& final(self).buffer_data(buf_idx as int).subrange(0, len as int)
                    == final(self).accepted().subrange(offset - final(self).start(), final(self).accepted().len() as int)
                &&& offset + len == final(self).start() + final(self).accepted().len()
                &&& 0 < len < final(self).capacity()
            },
    {
        let n_buf = self.status.len();
        let mut b: usize = 0;
        while b < n_buf
            invariant
                b <= n_buf,
                self.wf(),
                *self == *old(self),
                n_buf == self.status@.len(),
                forall|x: int| 0 <= x < b ==> !(#[trigger] self.in_flight(x)),
            decreases n_buf - b,
        {
            if self.status[b] == BufferStatus::Ready4Submit {
                assert(self.in_flight(b as int));
                return FinishAction::Wait;
            }
            b = b + 1;
        }
        assert(!self.any_in_flight());
        let ghost s0 = *self;
        if self.closed || self.pos.offset == 0 {
            self.closed = true;
            proof {
                assert(s0.log_ok());
            }
            return FinishAction::Done;
        }
        self.closed = true;
        proof {
            let c = self.pos.buf_idx as int;
            let w = (self.file_pos_cursor as int, self.buffers@[c].data@.subrange(
                0,
                self.pos.offset as int,
            ));
            self.writes = Ghost(s0.writes@.push(w));
            assert forall|k: int| 0 <= k < self.writes@.len() implies {
                &&& self.start_pos <= (#[trigger] self.writes@[k]).0
                &&& self.writes@[k].0 + self.writes@[k].1.len() <= self.start_pos
                    + self.accepted@.len()
                &&& self.writes@[k].1 == self.accepted@.subrange(
                    self.writes@[k].0 - self.start_pos,
                    self.writes@[k].0 - self.start_pos + self.writes@[k].1.len(),
                )
            } by {
                if k < s0.writes@.len() {
                    assert(self.writes@[k] == s0.writes@[k]);
                }
            }
            assert forall|p: int|
                self.start_pos <= p < self.covered_to() implies #[trigger] covered(
                self.writes@,
                p,
            ) by {
                if p < self.file_pos_cursor {
                    assert(covered(s0.writes@, p));
                    let k = choose|k: int|
                        0 <= k < s0.writes@.len() && covers(#[trigger] s0.writes@[k], p);
                    assert(self.writes@[k] == s0.writes@[k]);
                } else {
                    assert(covers(self.writes@[s0.writes@.len() as int], p));
                }
            }
        }
        FinishAction::Tail {
            buf_idx: self.pos.buf_idx,
            offset: self.file_pos_cursor,
            len: self.pos.offset,
        }
    }

    /// The bytes of buffer `buf_idx`, for the caller to write out.
    pub fn buffer(&self, buf_idx: usize) -> (r: &[u8])
        requires
            self.wf(),
            buf_idx < self.num(),
        ensures
            r@ == self.buffer_data(buf_idx as int),
    {
        self.buffers[buf_idx].data.as_slice()
    }

    /// File offset just past the last byte taken so far.
    pub fn stream_end(&self) -> (r: u64)
        requires
            self.wf(),
        ensures
            r == self.start() + self.accepted().len(),
    {
        self.file_pos_cursor + self.pos.offset as u64
    }

    /// Whether the writer is closed.
    pub fn closed(&self) -> (r: bool)
        ensures
            r == self.is_closed(),
    {
        self.closed
    }
}

/// Once the writer is closed, a file that holds every write it asked for holds, from the
/// start position on, exactly the bytes the writer took.
pub proof fn lemma_writes_reproduce_stream(w: &WriterState, file: Seq<u8>)
    requires
        w.wf(),
        w.is_closed(),
        applied(w.writes(), file),
        w.start() + w.accepted().len() <= file.len(),
    ensures
        file.subrange(w.start(), w.start() + w.accepted().len()) == w.accepted(),
{
    let a = w.accepted();
    let st = w.start();
    assert forall|i: int| 0 <= i < a.len() implies file[st + i] == a[i] by {
        let p = st + i;
        assert(covered(w.writes(), p));
        let k = choose|k: int| 0 <= k < w.writes().len() && covers(#[trigger] w.writes()[k], p);
        let wk = w.writes()[k];
        assert(file.subrange(wk.0, wk.0 + wk.1.len())[p - wk.0] == file[p]);
        assert(a.subrange(wk.0 - st, wk.0 - st + wk.1.len())[p - wk.0] == a[i]);
    }
    assert(file.subrange(st, st + a.len()) =~= a);
}

/// Bytes written from offset 0 and then read back from offset 0 to the end of the file
/// come back whole: the reader hands out exactly the bytes the writer took, no more.
pub proof fn lemma_round_trip(w: &WriterState, r: &ReaderState, file: Seq<u8>)
    requires
        w.wf(),
        w.start() == 0,
        w.is_closed(),
        applied(w.writes(), file),
        file.len() == w.accepted().len(),
        r.wf(),
        r.start() == 0,
        r.end() == file.len(),
        r.sound(file),
        r.at_end(),
    ensures
        r.delivered() == w.accepted(),
        r.delivered().len() == w.accepted().len(),
{
    lemma_writes_reproduce_stream(w, file);
    crate::reader::lemma_short_read_yields_range(r, file);
    assert(file.subrange(0, file.len() as int) =~= file);
}

} // verus!
