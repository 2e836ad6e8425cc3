use bmw::error::{CoreErrorKind, ErrKind};
use bmw::ser::{expect_zero, BinReader, BinWriter, Reader, Writer};

#[test]
fn write_then_read_integers() {
    let mut w = BinWriter::new();
    w.write_u8(7).unwrap();
    w.write_i8(-2).unwrap();
    w.write_u16(0x1234).unwrap();
    w.write_i16(-300).unwrap();
    w.write_u32(0xdeadbeef).unwrap();
    w.write_i32(i32::MIN).unwrap();
    w.write_u64(u64::MAX).unwrap();
    w.write_i64(-1).unwrap();
    w.write_u128(1 << 100).unwrap();
    w.write_i128(i128::MIN + 5).unwrap();
    w.write_usize(99).unwrap();
    let bytes = w.into_bytes();
    assert_eq!(&bytes[0..4], &[7, 0xfe, 0x12, 0x34]);
    let mut r = BinReader::new(bytes);
    assert_eq!(r.read_u8().unwrap(), 7);
    assert_eq!(r.read_i8().unwrap(), -2);
    assert_eq!(r.read_u16().unwrap(), 0x1234);
    assert_eq!(r.read_i16().unwrap(), -300);
    assert_eq!(r.read_u32().unwrap(), 0xdeadbeef);
    assert_eq!(r.read_i32().unwrap(), i32::MIN);
    assert_eq!(r.read_u64().unwrap(), u64::MAX);
    assert_eq!(r.read_i64().unwrap(), -1);
    assert_eq!(r.read_u128().unwrap(), 1 << 100);
    assert_eq!(r.read_i128().unwrap(), i128::MIN + 5);
    assert_eq!(r.read_usize().unwrap(), 99);
    assert_eq!(r.remaining(), 0);
}

#[test]
fn write_bytes_is_length_prefixed() {
    let mut w = BinWriter::new();
    w.write_bytes(b"abc").unwrap();
    assert_eq!(w.bytes(), &vec![0, 0, 0, 0, 0, 0, 0, 3, b'a', b'b', b'c']);
    w.write_empty_bytes(2).unwrap();
    w.write_fixed_bytes(&[9]).unwrap();
    let mut r = BinReader::new(w.into_bytes());
    assert_eq!(r.read_u64().unwrap(), 3);
    let mut buf = [0u8; 3];
    r.read_fixed_bytes(&mut buf).unwrap();
    assert_eq!(&buf, b"abc");
    r.read_empty_bytes(2).unwrap();
    assert_eq!(r.expect_u8(9).unwrap(), 9);
}

#[test]
fn reading_past_the_end_is_an_io_error() {
    let mut r = BinReader::new(vec![1, 2]);
    let e = r.read_u32().unwrap_err();
    assert_eq!(
        e.kind(),
        &ErrKind::Core(CoreErrorKind::IO("failed to fill whole buffer".to_string()))
    );
}

#[test]
fn unexpected_byte_is_corrupted_data() {
    let mut r = BinReader::new(vec![1]);
    let e = r.expect_u8(2).unwrap_err();
    assert!(matches!(e.kind(), ErrKind::Core(CoreErrorKind::CorruptedData(_))));
    let mut r = BinReader::new(vec![0, 5]);
    let e = r.read_empty_bytes(2).unwrap_err();
    assert!(matches!(e.kind(), ErrKind::Core(CoreErrorKind::CorruptedData(_))));
}

#[test]
fn oversized_usize_is_try_into() {
    if usize::BITS < 64 {
        let mut r = BinReader::new(vec![1, 0, 0, 0, 0, 0, 0, 0]);
        let e = r.read_usize().unwrap_err();
        assert!(matches!(e.kind(), ErrKind::Core(CoreErrorKind::TryInto(_))));
    }
}

#[test]
fn empty_bytes_stop_at_the_first_non_zero_byte() {
    let mut r = BinReader::new(vec![0, 0, 5, 0]);
    let e = r.read_empty_bytes(4).unwrap_err();
    assert!(matches!(e.kind(), ErrKind::Core(CoreErrorKind::CorruptedData(_))));
    assert_eq!(r.remaining(), 1);

    let mut r = BinReader::new(vec![0, 0]);
    let e = r.read_empty_bytes(3).unwrap_err();
    assert!(matches!(e.kind(), ErrKind::Core(CoreErrorKind::IO(_))));
    assert_eq!(r.remaining(), 0);

    let mut w = BinWriter::new();
    w.write_empty_bytes(3).unwrap();
    assert_eq!(w.bytes(), &vec![0u8, 0, 0]);
}

#[test]
fn zero_bytes_are_expected() {
    assert!(expect_zero(0).is_ok());
    let e = expect_zero(3).unwrap_err();
    assert!(matches!(e.kind(), ErrKind::Core(CoreErrorKind::CorruptedData(_))));
    let mut r = BinReader::new(vec![]);
    assert!(r.read_empty_bytes(0).is_ok());
}
