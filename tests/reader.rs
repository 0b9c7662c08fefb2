use fiox::error::FioxError;
use fiox::reader::{ReadAction, ReadRequest, ReaderState};

const PAGE: usize = 4096;

fn pseudo_random(n: usize, seed: u64) -> Vec<u8> {
    let mut x = seed.wrapping_mul(6364136223846793005).wrapping_add(1442695040888963407);
    let mut v = Vec::with_capacity(n);
    for _ in 0..n {
        x ^= x << 13;
        x ^= x >> 7;
        x ^= x << 17;
        v.push((x >> 24) as u8);
    }
    v
}

/// Drives a reader against an in-memory file; completions of direct reads arrive
/// newest first, so they come back out of order.
struct Sim {
    st: ReaderState,
    file: Vec<u8>,
    in_flight: Vec<ReadRequest>,
    log: Vec<ReadRequest>,
}

impl Sim {
    fn new(file: Vec<u8>, start: u64, cap: usize, num: usize, end: Option<u64>) -> Sim {
        let st = ReaderState::new(start, cap, num, PAGE, file.len() as u64, end).unwrap();
        Sim { st, file, in_flight: Vec::new(), log: Vec::new() }
    }

    fn bytes(&self, q: &ReadRequest) -> Vec<u8> {
        self.file[q.offset as usize..q.offset as usize + q.len].to_vec()
    }

    fn read2buf(&mut self, out: &mut [u8]) -> usize {
        let mut filled = 0usize;
        loop {
            match self.st.poll_read(out, &mut filled) {
                ReadAction::Done(n) => return n,
                ReadAction::Submit(q) => {
                    self.log.push(q);
                    if q.direct {
                        self.in_flight.push(q);
                    } else {
                        let b = self.bytes(&q);
                        self.st.complete(q.buf_idx, &b).unwrap();
                    }
                }
                ReadAction::Wait => {
                    let q = self.in_flight.pop().expect("a request in flight");
                    let b = self.bytes(&q);
                    self.st.complete(q.buf_idx, &b).unwrap();
                }
            }
        }
    }

    fn read_all(&mut self, req: usize) -> (Vec<u8>, Vec<usize>) {
        let mut got = Vec::new();
        let mut sizes = Vec::new();
        let mut buf = vec![0u8; req];
        loop {
            let n = self.read2buf(&mut buf);
            sizes.push(n);
            got.extend_from_slice(&buf[..n]);
            if n < req {
                break;
            }
        }
        (got, sizes)
    }
}

#[test]
fn lib_test_sequential_reader() {
    let file = pseudo_random(1 << 20, 1);
    let read_start_pos = 10u64;
    let mut sim = Sim::new(file.clone(), read_start_pos, 4096, 2, None);
    let buf_size = 112560;
    let mut buf = vec![0u8; buf_size];
    let mut read_size = 0u64;
    let mut at = read_start_pos as usize;
    loop {
        let n = sim.read2buf(&mut buf);
        assert_eq!(&buf[..n], &file[at..at + n]);
        at += n;
        read_size += n as u64;
        if n == 0 {
            break;
        }
    }
    assert_eq!(read_size, file.len() as u64 - read_start_pos);
}

#[test]
fn mod_test_sequential_reader() {
    let file = pseudo_random(300_001, 2);
    let read_start_pos = 10u64;
    let mut sim = Sim::new(file.clone(), read_start_pos, 4096, 2, None);
    let (got, _) = sim.read_all(112560);
    assert_eq!(got.len() as u64, file.len() as u64 - read_start_pos);
    assert_eq!(&got[..], &file[10..]);
}

#[test]
fn reader_aligned_full_returns_then_zero() {
    let file = pseudo_random(1_048_576, 3);
    let mut sim = Sim::new(file.clone(), 0, 4096, 2, None);
    let (got, sizes) = sim.read_all(65_536);
    let mut expected = vec![65_536usize; 16];
    expected.push(0);
    assert_eq!(sizes, expected);
    assert_eq!(got, file);
}

#[test]
fn reader_unaligned_head() {
    let file = pseudo_random(1_048_576, 4);
    let mut sim = Sim::new(file.clone(), 10, 4096, 2, None);
    let (got, _) = sim.read_all(112_560);
    assert_eq!(got.len(), 1_048_566);
    assert_eq!(&got[..], &file[10..]);
}

#[test]
fn reader_short_file_tail() {
    let file = pseudo_random(5_000, 5);
    let mut sim = Sim::new(file.clone(), 0, 4096, 2, None);
    let (got, _) = sim.read_all(4096);
    assert_eq!(got, file);
    let tails: Vec<&ReadRequest> = sim.log.iter().filter(|q| !q.direct).collect();
    assert_eq!(tails.len(), 1);
    assert_eq!(tails[0].offset, 4096);
    assert_eq!(tails[0].len, 904);
    let direct: Vec<&ReadRequest> = sim.log.iter().filter(|q| q.direct).collect();
    assert_eq!(direct.len(), 1);
    assert_eq!((direct[0].offset, direct[0].len), (0, 4096));
}

#[test]
fn reader_request_sizes_match_reference() {
    let cap = 8192usize;
    let file = pseudo_random(100_000, 6);
    for &r in [1usize, 7, 4095, 4096, 4097, cap - 1, cap, cap + 1, 112_560].iter() {
        for &start in [0u64, 10, 8192].iter() {
            let mut sim = Sim::new(file.clone(), start, cap, 3, None);
            let (got, sizes) = sim.read_all(r);
            assert_eq!(&got[..], &file[start as usize..], "request size {}", r);
            for s in &sizes[..sizes.len() - 1] {
                assert_eq!(*s, r);
            }
        }
    }
}

#[test]
fn reader_end_pos_inside_file() {
    let file = pseudo_random(50_000, 7);
    let mut sim = Sim::new(file.clone(), 100, 4096, 2, Some(20_000));
    let (got, _) = sim.read_all(3000);
    assert_eq!(&got[..], &file[100..20_000]);
}

#[test]
fn reader_end_of_stream_is_durable() {
    let file = pseudo_random(10_000, 8);
    let mut sim = Sim::new(file.clone(), 0, 4096, 2, None);
    let mut buf = vec![0u8; 6000];
    assert_eq!(sim.read2buf(&mut buf), 6000);
    assert_eq!(sim.read2buf(&mut buf), 4000);
    let log_len = sim.log.len();
    for _ in 0..3 {
        let mut probe = vec![7u8; 100];
        assert_eq!(sim.read2buf(&mut probe), 0);
        assert_eq!(probe, vec![7u8; 100]);
    }
    assert_eq!(sim.log.len(), log_len);
}

#[test]
fn reader_requests_are_contiguous_and_aligned() {
    let file = pseudo_random(70_000, 9);
    let mut sim = Sim::new(file.clone(), 5000, 8192, 4, None);
    let (got, _) = sim.read_all(1000);
    assert_eq!(&got[..], &file[5000..]);
    let mut next = 0u64;
    for q in &sim.log {
        assert_eq!(q.offset, next);
        assert_eq!(q.offset % PAGE as u64, 0);
        if q.direct {
            assert_eq!(q.len, 8192);
        } else {
            assert_eq!(q.offset + q.len as u64, 70_000);
        }
        next = q.offset + q.len as u64;
    }
    assert_eq!(next, 70_000);
}

#[test]
fn reader_empty_range() {
    let file = pseudo_random(8192, 10);
    let mut sim = Sim::new(file.clone(), 4096, 4096, 2, Some(4096));
    let mut buf = vec![0u8; 10];
    assert_eq!(sim.read2buf(&mut buf), 0);
    let mut sim = Sim::new(file.clone(), 10, 4096, 2, Some(10));
    assert_eq!(sim.read2buf(&mut buf), 0);
}

#[test]
fn reader_config_errors() {
    assert_eq!(ReaderState::new(0, 4096, 2, 0, 100, None).err(), Some(FioxError::ZeroPageSize));
    assert_eq!(ReaderState::new(0, 4000, 2, 4096, 100, None).err(), Some(FioxError::MisalignedCapacity));
    assert_eq!(ReaderState::new(0, 0, 2, 4096, 100, None).err(), Some(FioxError::MisalignedCapacity));
    assert_eq!(ReaderState::new(0, 4096, 0, 4096, 100, None).err(), Some(FioxError::EmptyPool));
    assert_eq!(ReaderState::new(0, 4096, 2, 4096, 100, Some(101)).err(), Some(FioxError::EndPastFile));
    assert_eq!(ReaderState::new(60, 4096, 2, 4096, 100, Some(50)).err(), Some(FioxError::StartPastEnd));
    assert!(ReaderState::new(50, 4096, 2, 4096, 100, Some(50)).is_ok());
}

#[test]
fn reader_refuses_bad_completions() {
    let file = pseudo_random(20_000, 11);
    let mut st = ReaderState::new(0, 4096, 2, PAGE, file.len() as u64, None).unwrap();
    assert_eq!(st.complete(0, &file[..4096]), Err(FioxError::UnexpectedCompletion));
    let mut out = vec![0u8; 10];
    let mut filled = 0usize;
    let q = match st.poll_read(&mut out, &mut filled) {
        ReadAction::Submit(q) => q,
        other => panic!("expected a request, got {:?}", other),
    };
    assert_eq!((q.buf_idx, q.offset, q.len, q.direct), (0, 0, 4096, true));
    assert_eq!(st.complete(5, &file[..4096]), Err(FioxError::UnexpectedCompletion));
    assert_eq!(st.complete(0, &file[..100]), Err(FioxError::ShortTransfer));
    assert_eq!(st.complete(0, &file[..4096]), Ok(()));
    assert_eq!(st.complete(0, &file[..4096]), Err(FioxError::UnexpectedCompletion));
}
