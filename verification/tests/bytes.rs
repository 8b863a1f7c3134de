use fold::bytes::{
    bytes_eq, ends_with, read_u16, read_u32, read_u64, starts_with, to_i32, to_i64, to_vec,
    u16_at, u32_at, u64_at, BytesIter, Integer,
};

#[test]
fn words_are_read_least_significant_byte_first() {
    let bytes = [0x01u8, 0x02, 0x03, 0x04, 0x05, 0x06, 0x07, 0x08, 0x09];
    assert_eq!(read_u16(&bytes, 0), Some(0x0201));
    assert_eq!(read_u32(&bytes, 0), Some(0x0403_0201));
    assert_eq!(read_u64(&bytes, 0), Some(0x0807_0605_0403_0201));
    assert_eq!(read_u64(&bytes, 1), Some(0x0908_0706_0504_0302));
    assert_eq!(u16_at(&bytes, 7), 0x0908);
    assert_eq!(u32_at(&bytes, 5), 0x0908_0706);
    assert_eq!(u64_at(&bytes, 1), 0x0908_0706_0504_0302);
}

#[test]
fn words_agree_with_std() {
    let bytes = [0xffu8, 0x00, 0x80, 0x7f, 0xde, 0xad, 0xbe, 0xef];
    assert_eq!(read_u64(&bytes, 0), Some(u64::from_le_bytes(bytes)));
    assert_eq!(read_u32(&bytes, 4), Some(u32::from_le_bytes([0xde, 0xad, 0xbe, 0xef])));
    assert_eq!(read_u16(&bytes, 2), Some(u16::from_le_bytes([0x80, 0x7f])));
}

#[test]
fn reading_past_the_end_gives_nothing() {
    let bytes = [1u8, 2, 3];
    assert_eq!(read_u16(&bytes, 1), Some(0x0302));
    assert_eq!(read_u16(&bytes, 2), None);
    assert_eq!(read_u32(&bytes, 0), None);
    assert_eq!(read_u64(&bytes, 0), None);
    assert_eq!(read_u16(&bytes, usize::MAX), None);
    assert_eq!(read_u64(&[], 0), None);
}

#[test]
fn signed_readings() {
    assert_eq!(to_i64(0), 0);
    assert_eq!(to_i64(u64::MAX), -1);
    assert_eq!(to_i64(0x8000_0000_0000_0000), i64::MIN);
    assert_eq!(to_i64(0x7fff_ffff_ffff_ffff), i64::MAX);
    assert_eq!(to_i32(u32::MAX), -1);
    assert_eq!(to_i32(0x8000_0000), i32::MIN);
    assert_eq!(to_i32(5), 5);
}

#[test]
fn integers_come_off_the_front() {
    let bytes = [0x34u8, 0x12, 0xff, 0xff, 0xff, 0xff, 0x09];
    let mut it = BytesIter { bytes: &bytes };
    assert_eq!(it.read::<u16>(), Some(0x1234));
    assert_eq!(it.read::<i32>(), Some(-1));
    assert_eq!(it.read::<u16>(), None);
    assert_eq!(it.bytes, &[0x09]);
    assert_eq!(it.next(), Some(9));
    assert_eq!(it.next(), None);
    assert_eq!(it.read::<u8>(), None);
}

#[test]
fn short_signed_integers() {
    let bytes = [0x80u8, 0xff, 0xff, 0x7f, 0x00, 0x80];
    let mut it = BytesIter { bytes: &bytes };
    assert_eq!(it.read::<i8>(), Some(i8::MIN));
    assert_eq!(it.read::<i8>(), Some(-1));
    assert_eq!(it.read::<i16>(), Some(0x7fff));
    assert_eq!(it.read::<i16>(), Some(i16::MIN));
    assert_eq!(it.read::<i8>(), None);
    assert_eq!(<i8 as Integer>::size(), 1);
    assert_eq!(<i16 as Integer>::size(), 2);
    assert_eq!(<i16 as Integer>::from_bytes(&[0xfe, 0xff]).unwrap().0, -2);
}

#[test]
fn integer_sizes() {
    assert_eq!(<u8 as Integer>::size(), 1);
    assert_eq!(<u16 as Integer>::size(), 2);
    assert_eq!(<u32 as Integer>::size(), 4);
    assert_eq!(<u64 as Integer>::size(), 8);
    assert_eq!(<i32 as Integer>::size(), 4);
    assert_eq!(<i64 as Integer>::size(), 8);
}

#[test]
fn from_bytes_gives_the_rest() {
    let bytes = [1u8, 0, 0, 0, 0, 0, 0, 0x80, 7, 8];
    let (v, rest) = <i64 as Integer>::from_bytes(&bytes).unwrap();
    assert_eq!(v, i64::from_le_bytes([1, 0, 0, 0, 0, 0, 0, 0x80]));
    assert_eq!(rest, &[7, 8]);
    let (b, rest) = <u8 as Integer>::from_bytes(rest).unwrap();
    assert_eq!(b, 7);
    assert_eq!(rest, &[8]);
    assert!(<u64 as Integer>::from_bytes(rest).is_none());
    assert!(<u32 as Integer>::from_bytes(&[1, 2, 3]).is_none());
    assert_eq!(<u32 as Integer>::from_bytes(&[1, 2, 3, 4]).unwrap().0, 0x0403_0201);
}

#[test]
fn byte_strings_compare() {
    assert!(bytes_eq(b"abc", b"abc"));
    assert!(!bytes_eq(b"abc", b"abd"));
    assert!(!bytes_eq(b"abc", b"ab"));
    assert!(bytes_eq(b"", b""));
    assert!(starts_with(b"libc.so.6", b"libc.so"));
    assert!(!starts_with(b"libc", b"libc.so"));
    assert!(starts_with(b"x", b""));
    assert!(ends_with(b"/usr/lib/libc.so", b"libc.so"));
    assert!(!ends_with(b"libc.so.6", b"libc.so"));
    assert!(ends_with(b"", b""));
    assert_eq!(to_vec(b"hello"), b"hello".to_vec());
}
