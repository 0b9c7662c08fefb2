use fiox::error::FioxError;
use fiox::reader::{ReadAction, ReaderState};
use fiox::writer::{FinishAction, WriteAction, WriteRequest, WriterState};

const PAGE: usize = 4096;

fn pseudo_random(n: usize, seed: u64) -> Vec<u8> {
    let mut x = seed.wrapping_mul(6364136223846793005).wrapping_add(1442695040888963407);
    let mut v = Vec::with_capacity(n);
    for _ in 0..n {
        x ^= x << 13;
        x ^= x >> 7;
        x ^= x << 17;
        v.push((x >> 24) as u8);
    }
    v
}

/// Drives a writer against an in-memory file; completions arrive newest first.
struct Sim {
    st: WriterState,
    disk: Vec<u8>,
    in_flight: Vec<WriteRequest>,
    direct: Vec<(u64, usize)>,
    tail: Option<(u64, usize)>,
}

impl Sim {
    fn new(start: u64, cap: usize, num: usize) -> Sim {
        let st = WriterState::new(start, cap, num, PAGE).unwrap();
        Sim { st, disk: Vec::new(), in_flight: Vec::new(), direct: Vec::new(), tail: None }
    }

    fn put(&mut self, offset: u64, bytes: &[u8]) {
        let end = offset as usize + bytes.len();
        if self.disk.len() < end {
            self.disk.resize(end, 0);
        }
        self.disk[offset as usize..end].copy_from_slice(bytes);
    }

    fn complete_one(&mut self) {
        let q = self.in_flight.pop().expect("a write in flight");
        self.st.complete(q.buf_idx, q.len).unwrap();
    }

    fn write(&mut self, data: &[u8]) {
        let mut consumed = 0usize;
        loop {
            match self.st.poll_write(data, &mut consumed) {
                WriteAction::Done => return,
                WriteAction::Submit(q) => {
                    let bytes = self.st.buffer(q.buf_idx)[..q.len].to_vec();
                    self.put(q.offset, &bytes);
                    self.direct.push((q.offset, q.len));
                    self.in_flight.push(q);
                }
                WriteAction::Wait => self.complete_one(),
            }
        }
    }

    fn finish(&mut self) {
        loop {
            match self.st.poll_finish() {
                FinishAction::Wait => self.complete_one(),
                FinishAction::Tail { buf_idx, offset, len } => {
                    let bytes = self.st.buffer(buf_idx)[..len].to_vec();
                    self.put(offset, &bytes);
                    self.tail = Some((offset, len));
                }
                FinishAction::Done => return,
            }
        }
    }
}

#[test]
fn test_sequential_writer() {
    let mut sim = Sim::new(0, 4096, 2);
    let mut expected = Vec::new();
    for i in 0..1000 {
        let line = format!("line:{}, abcdefghijklmnopqrstuvwxyz\n", i);
        sim.write(line.as_bytes());
        expected.extend_from_slice(line.as_bytes());
    }
    sim.finish();
    assert_eq!(sim.disk, expected);
}

#[test]
fn writer_aligned_whole_multiple() {
    let data = b"1234567890abcdefghijklmnopqrstuvwxyz\n";
    let times = (1usize << 20) / 37;
    let mut sim = Sim::new(0, 1 << 20, 8);
    for _ in 0..times {
        sim.write(data);
    }
    sim.finish();
    assert_eq!(sim.disk.len(), 37 * times);
    assert_eq!(sim.st.stream_end(), 37 * times as u64);
    assert_eq!(sim.disk, data.repeat(times));
}

#[test]
fn writer_unaligned_tail() {
    let data = pseudo_random(5000, 1);
    let mut sim = Sim::new(0, 4096, 2);
    sim.write(&data);
    sim.finish();
    assert_eq!(sim.disk, data);
    assert_eq!(sim.direct, vec![(0u64, 4096usize)]);
    assert_eq!(sim.tail, Some((4096u64, 904usize)));
}

#[test]
fn writer_offsets_contiguous_from_start() {
    let data = pseudo_random(50_000, 2);
    let mut sim = Sim::new(8192, 8192, 3);
    for chunk in data.chunks(777) {
        sim.write(chunk);
    }
    sim.finish();
    let mut next = 8192u64;
    for &(off, len) in &sim.direct {
        assert_eq!(off, next);
        assert_eq!(off % PAGE as u64, 0);
        assert_eq!(len, 8192);
        next += len as u64;
    }
    assert_eq!(sim.tail, Some((next, 50_000 + 8192 - next as usize)));
    assert_eq!(&sim.disk[8192..], &data[..]);
}

#[test]
fn writer_no_tail_when_exact() {
    let data = pseudo_random(8192, 3);
    let mut sim = Sim::new(0, 4096, 2);
    sim.write(&data);
    sim.finish();
    assert_eq!(sim.tail, None);
    assert_eq!(sim.disk, data);
    assert!(sim.st.closed());
    assert_eq!(sim.st.poll_finish(), FinishAction::Done);
}

#[test]
fn writer_config_errors() {
    assert_eq!(WriterState::new(0, 4096, 2, 0).err(), Some(FioxError::ZeroPageSize));
    assert_eq!(WriterState::new(0, 100, 2, 4096).err(), Some(FioxError::MisalignedCapacity));
    assert_eq!(WriterState::new(10, 4096, 2, 4096).err(), Some(FioxError::MisalignedStart));
    assert_eq!(WriterState::new(0, 4096, 0, 4096).err(), Some(FioxError::EmptyPool));
}

#[test]
fn writer_refuses_bad_completions() {
    let mut st = WriterState::new(0, 4096, 2, PAGE).unwrap();
    assert_eq!(st.complete(0, 4096), Err(FioxError::UnexpectedCompletion));
    let data = vec![1u8; 4096];
    let mut consumed = 0usize;
    match st.poll_write(&data, &mut consumed) {
        WriteAction::Submit(q) => assert_eq!((q.buf_idx, q.offset, q.len), (0, 0, 4096)),
        other => panic!("expected a write, got {:?}", other),
    }
    assert_eq!(st.complete(0, 100), Err(FioxError::ShortTransfer));
    assert_eq!(st.complete(1, 4096), Err(FioxError::UnexpectedCompletion));
    assert_eq!(st.complete(0, 4096), Ok(()));
}

#[test]
fn round_trip_through_both() {
    let data = pseudo_random(10_000_003, 4);
    let mut w = Sim::new(0, 4096, 4);
    for chunk in data.chunks(65_536) {
        w.write(chunk);
    }
    w.finish();
    assert_eq!(w.disk.len(), data.len());
    let file = w.disk;
    let mut st = ReaderState::new(0, 4096, 4, PAGE, file.len() as u64, None).unwrap();
    let mut in_flight = Vec::new();
    let mut got = Vec::with_capacity(file.len());
    let mut buf = vec![0u8; 7919];
    loop {
        let mut filled = 0usize;
        let n = loop {
            match st.poll_read(&mut buf, &mut filled) {
                ReadAction::Done(n) => break n,
                ReadAction::Submit(q) => {
                    if q.direct {
                        in_flight.push(q);
                    } else {
                        let o = q.offset as usize;
                        st.complete(q.buf_idx, &file[o..o + q.len]).unwrap();
                    }
                }
                ReadAction::Wait => {
                    let q = in_flight.remove(0);
                    let o = q.offset as usize;
                    st.complete(q.buf_idx, &file[o..o + q.len]).unwrap();
                }
            }
        };
        got.extend_from_slice(&buf[..n]);
        if n < buf.len() {
            break;
        }
    }
    assert_eq!(got.len(), data.len());
    assert!(got == data);
}
