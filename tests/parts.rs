use fiox::buffer::{AlignedVecU8, ReaderBuffer};
use fiox::buffer_aux::{BufferDataPos, BufferStatus};
use fiox::utils::{str_to_wide, FileMode};

#[test]
fn aligned_vec_is_zeroed_and_sized() {
    let v = AlignedVecU8::new(8192, 4096);
    assert_eq!(v.len(), 8192);
    assert_eq!(v.page_size(), 4096);
    assert!(v.as_slice().iter().all(|b| *b == 0));
}

#[test]
fn aligned_vec_copy_in() {
    let mut v = AlignedVecU8::new(4096, 4096);
    v.copy_in(10, b"hello world", 6, 5);
    assert_eq!(&v.as_slice()[8..17], b"\0\0world\0\0");
}

#[test]
fn reader_buffer_new() {
    let b = ReaderBuffer::new(4096, 4096);
    assert_eq!(b.cap(), 4096);
    assert_eq!(b.len(), 0);
    assert_eq!(b.data.len(), 4096);
}

#[test]
fn defaults() {
    assert_eq!(BufferDataPos::default(), BufferDataPos { buf_idx: 0, offset: 0 });
    assert_eq!(BufferStatus::default(), BufferStatus::Ready4Submit);
}

#[test]
fn wide_path() {
    assert_eq!(str_to_wide("a€😀"), vec![0x61u16, 0x20AC, 0xD83D, 0xDE00, 0]);
    assert_eq!(str_to_wide(""), vec![0u16]);
    assert_eq!(str_to_wide("C:/x.bin"), vec![67u16, 58, 47, 120, 46, 98, 105, 110, 0]);
}

#[test]
fn file_modes() {
    assert!(!FileMode::Read.writes());
    assert!(!FileMode::Read.creates());
    assert!(FileMode::Write.writes());
    assert!(FileMode::Write.creates());
}
