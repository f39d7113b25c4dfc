use gpt::codec::{
    put_be_u64, put_bytes, put_le_u16, put_le_u32, put_le_u64, put_u8, put_zeros, EndOfInput,
    Reader,
};
use gpt::guid::Guid;
use gpt::header::parse_uuid;

#[test]
fn integers_are_written_least_significant_byte_first() {
    let mut out = Vec::new();
    put_u8(&mut out, 0xAB);
    put_le_u16(&mut out, 0x1234);
    put_le_u32(&mut out, 0x89ABCDEF);
    put_le_u64(&mut out, 0x0102030405060708);
    put_be_u64(&mut out, 0x0102030405060708);
    put_bytes(&mut out, &[9, 9]);
    put_zeros(&mut out, 3);
    assert_eq!(
        out,
        vec![
            0xAB, 0x34, 0x12, 0xEF, 0xCD, 0xAB, 0x89, 8, 7, 6, 5, 4, 3, 2, 1, 1, 2, 3, 4, 5, 6, 7,
            8, 9, 9, 0, 0, 0
        ]
    );
}

#[test]
fn reader_reads_what_was_written() {
    let mut out = Vec::new();
    put_u8(&mut out, 7);
    put_le_u16(&mut out, 0xFFFE);
    put_le_u32(&mut out, 0xFFFF_FFFD);
    put_le_u64(&mut out, u64::MAX - 3);
    put_be_u64(&mut out, 0x1122334455667788);
    put_bytes(&mut out, b"xyz");
    let mut rdr = Reader::new(&out);
    assert_eq!(rdr.read_u8(), Ok(7));
    assert_eq!(rdr.read_le_u16(), Ok(0xFFFE));
    assert_eq!(rdr.read_le_u32(), Ok(0xFFFF_FFFD));
    assert_eq!(rdr.read_le_u64(), Ok(u64::MAX - 3));
    assert_eq!(rdr.read_be_u64(), Ok(0x1122334455667788));
    assert_eq!(rdr.read(3), Ok(b"xyz".to_vec()));
    assert_eq!(rdr.read_u8(), Err(EndOfInput));
}

#[test]
fn reads_beyond_the_end_fail_and_leave_the_position() {
    let data = [1u8, 2, 3];
    let mut rdr = Reader::new(&data);
    assert_eq!(rdr.read_le_u32(), Err(EndOfInput));
    assert_eq!(rdr.read_le_u64(), Err(EndOfInput));
    assert_eq!(rdr.read_be_u64(), Err(EndOfInput));
    assert_eq!(rdr.read(4), Err(EndOfInput));
    assert_eq!(rdr.read_le_u16(), Ok(0x0201));
    assert_eq!(rdr.read_le_u16(), Err(EndOfInput));
    assert_eq!(rdr.read_u8(), Ok(3));
}

#[test]
fn guid_is_stored_mixed_endian() {
    let g = Guid::from_fields(0x00112233, 0x4455, 0x6677, 0x8899AABBCCDDEEFF);
    let mut out = Vec::new();
    g.write(&mut out);
    assert_eq!(
        out,
        vec![
            0x33, 0x22, 0x11, 0x00, 0x55, 0x44, 0x77, 0x66, 0x88, 0x99, 0xAA, 0xBB, 0xCC, 0xDD,
            0xEE, 0xFF
        ]
    );
    let mut rdr = Reader::new(&out);
    assert_eq!(parse_uuid(&mut rdr), Ok(g));
    let mut short = Reader::new(&out[..15]);
    assert_eq!(
        parse_uuid(&mut short),
        Err(gpt::device::IoError::UnexpectedEof)
    );
}

#[test]
fn guid_text_goes_through_the_uuid_crate() {
    let g = Guid::parse_str("0FC63DAF-8483-4772-8E79-3D69D8477DE4").unwrap();
    assert_eq!(
        g,
        Guid::from_fields(0x0FC63DAF, 0x8483, 0x4772, 0x8E793D69D8477DE4)
    );
    assert_eq!(g.to_text(), "0fc63daf-8483-4772-8e79-3d69d8477de4");
    assert_eq!(
        Guid::parse_str("0fc63daf848347728e793d69d8477de4"),
        Some(g)
    );
    assert_eq!(Guid::parse_str("0FC63DAF-8483-4772-8E79"), None);
    assert_eq!(Guid::parse_str(""), None);
    assert!(Guid::nil().is_nil());
    assert!(!g.is_nil());
    assert_eq!(Guid::nil().to_text(), "00000000-0000-0000-0000-000000000000");
}

#[test]
fn random_guids_are_version_four_and_differ() {
    let a = Guid::random();
    let b = Guid::random();
    assert_ne!(a, b);
    assert_eq!(a.d3 >> 12, 4);
    assert_eq!(b.d3 >> 12, 4);
    assert_eq!(a.d4 >> 62, 2);
    assert_eq!(b.d4 >> 62, 2);
    assert!(!a.is_nil());
    assert_eq!(a.to_text().as_bytes()[14], b'4');
}
