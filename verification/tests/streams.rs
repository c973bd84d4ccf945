use kbinxml::byte_buffer::{ByteBufferRead, ByteBufferWrite};
use kbinxml::KbinError;

#[test]
fn bytes_share_a_word() {
    let mut r = ByteBufferRead::new(vec![1, 2, 3, 4, 0xAA, 0xBB, 0xCC, 0xDD, 5, 0, 0, 0]);
    assert_eq!(r.read_u8(), Ok(1));
    assert_eq!(r.position(), 4);
    assert_eq!(r.read_u8(), Ok(2));
    assert_eq!(r.read_u8(), Ok(3));
    assert_eq!(r.read_u8(), Ok(4));
    assert_eq!(r.position(), 4);
    assert_eq!(r.read_u32(), Ok(0xAABBCCDD));
    assert_eq!(r.position(), 8);
    assert_eq!(r.read_u8(), Ok(5));
    assert_eq!(r.position(), 12);
}

#[test]
fn pairs_share_a_word() {
    let mut r = ByteBufferRead::new(vec![0, 1, 0, 2, 9, 9, 9, 9, 0, 3, 0, 0]);
    assert_eq!(r.read_u16(), Ok(1));
    assert_eq!(r.position(), 4);
    assert_eq!(r.read_sized(4), Ok(vec![9, 9, 9, 9]));
    assert_eq!(r.read_u16(), Ok(2));
    assert_eq!(r.position(), 8);
    assert_eq!(r.read_u16(), Ok(3));
    assert_eq!(r.position(), 12);
}

#[test]
fn bytes_and_pairs_use_words_of_their_own() {
    let mut r = ByteBufferRead::new(vec![7, 0, 0, 0, 0x12, 0x34, 0, 0, 0xDE, 0xAD, 0xBE, 0xEF]);
    assert_eq!(r.read_u8(), Ok(7));
    assert_eq!(r.read_u16(), Ok(0x1234));
    assert_eq!(r.position(), 8);
    assert_eq!(r.read_aligned(4), Ok(vec![0xDE, 0xAD, 0xBE, 0xEF]));
    assert_eq!(r.position(), 12);
}

#[test]
fn sized_reads_pad_to_four() {
    let mut r = ByteBufferRead::new(vec![1, 2, 3, 4, 5, 0, 0, 0, 6, 7, 8, 0, 9]);
    assert_eq!(r.read_sized(5), Ok(vec![1, 2, 3, 4, 5]));
    assert_eq!(r.position(), 8);
    assert_eq!(r.read_aligned(3), Ok(vec![6, 7, 8]));
    assert_eq!(r.position(), 12);
    assert_eq!(r.read_sized(1), Ok(vec![9]));
    assert_eq!(r.position(), 16);
    assert_eq!(r.read_sized(0), Err(KbinError::DataRead { size: 0 }));
    assert_eq!(r.read_u8(), Err(KbinError::DataRead { size: 1 }));
}

#[test]
fn length_prefixed_reads() {
    let mut r = ByteBufferRead::new(vec![0, 0, 0, 6, b'h', b'e', b'l', b'l', b'o', 0, 0, 0, 0, 0, 0, 0]);
    assert_eq!(r.read_length_prefixed(), Ok(b"hello\0".to_vec()));
    assert_eq!(r.position(), 12);
    assert_eq!(r.read_length_prefixed(), Ok(vec![]));
    assert_eq!(r.position(), 16);
}

#[test]
fn underrun_is_reported_with_the_size() {
    let mut r = ByteBufferRead::new(vec![0, 0, 0, 9, 1, 2]);
    assert_eq!(r.read_length_prefixed(), Err(KbinError::DataRead { size: 9 }));
    assert_eq!(r.position(), 0);
    assert_eq!(r.read_sized(7), Err(KbinError::DataRead { size: 7 }));
    let mut r = ByteBufferRead::new(vec![1]);
    assert_eq!(r.read_u16(), Err(KbinError::DataRead { size: 2 }));
    assert_eq!(r.read_u32(), Err(KbinError::DataRead { size: 4 }));
    assert_eq!(r.read_u8(), Ok(1));
}

#[test]
fn no_value_has_no_bytes() {
    let mut r = ByteBufferRead::new(vec![1, 2, 3, 4]);
    assert_eq!(r.read_aligned(0), Err(KbinError::InvalidState));
    let mut w = ByteBufferWrite::new();
    assert_eq!(w.write_aligned(&vec![]), Err(KbinError::InvalidState));
    assert_eq!(w.len(), 0);
}

#[test]
fn writes_fill_words() {
    let mut w = ByteBufferWrite::new();
    w.write_u8(1);
    assert_eq!(w.len(), 4);
    w.write_u32(0xAABBCCDD);
    w.write_u8(2);
    w.write_u16(0x1234);
    w.write_u8(3);
    w.write_u16(0x5678);
    w.write_u8(4);
    w.write_u8(5);
    w.write_u16(0x9ABC);
    assert_eq!(
        w.into_inner(),
        vec![1, 2, 3, 4, 0xAA, 0xBB, 0xCC, 0xDD, 0x12, 0x34, 0x56, 0x78, 5, 0, 0, 0, 0x9A, 0xBC, 0, 0]
    );
}

#[test]
fn sized_writes_pad_with_zeros() {
    let mut w = ByteBufferWrite::new();
    w.write_sized(&vec![1, 2, 3, 4, 5]);
    assert_eq!(w.len(), 8);
    assert_eq!(w.write_length_prefixed(&b"hello\0".to_vec(), "str"), Ok(()));
    assert_eq!(w.write_aligned(&vec![7, 8, 9]), Ok(()));
    assert_eq!(
        w.into_inner(),
        vec![1, 2, 3, 4, 5, 0, 0, 0, 0, 0, 0, 6, b'h', b'e', b'l', b'l', b'o', 0, 0, 0, 7, 8, 9, 0]
    );
}

#[test]
fn what_was_written_is_read_back() {
    let mut w = ByteBufferWrite::new();
    w.write_u8(0x11);
    w.write_u16(0x2222);
    w.write_sized(&vec![3, 3, 3, 3, 3, 3]);
    w.write_u8(0x44);
    w.write_length_prefixed(&vec![5, 5, 5], "bin").unwrap();
    w.write_u16(0x6666);
    w.write_u8(0x77);
    w.write_u16(0x8888);
    w.write_u8(0x99);
    w.write_u8(0xAA);
    w.write_u32(0xBBBBBBBB);
    let bytes = w.into_inner();
    assert_eq!(bytes.len() % 4, 0);
    let mut r = ByteBufferRead::new(bytes);
    assert_eq!(r.read_u8(), Ok(0x11));
    assert_eq!(r.read_u16(), Ok(0x2222));
    assert_eq!(r.read_sized(6), Ok(vec![3, 3, 3, 3, 3, 3]));
    assert_eq!(r.read_u8(), Ok(0x44));
    assert_eq!(r.read_length_prefixed(), Ok(vec![5, 5, 5]));
    assert_eq!(r.read_u16(), Ok(0x6666));
    assert_eq!(r.read_u8(), Ok(0x77));
    assert_eq!(r.read_u16(), Ok(0x8888));
    assert_eq!(r.read_u8(), Ok(0x99));
    assert_eq!(r.read_u8(), Ok(0xAA));
    assert_eq!(r.read_u32(), Ok(0xBBBBBBBB));
    assert_eq!(r.position() % 4, 0);
}
