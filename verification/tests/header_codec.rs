use rustar::header::{
    FileMetadata, HeaderBuilder, HeaderError, HeaderParser, HeaderValidator, IntErrorKind,
    ParsedHeader,
};

fn meta() -> FileMetadata {
    FileMetadata { mode: 0o644, uid: 1000, gid: 1000, size: 5, mtime: 1_700_000_000 }
}

#[test]
fn build_lays_out_every_field() {
    let block = HeaderBuilder::build("x.txt", &meta()).unwrap();
    assert_eq!(block.len(), 512);
    assert_eq!(&block[0..5], b"x.txt");
    assert!(block[5..100].iter().all(|&b| b == 0));
    assert_eq!(&block[100..108], b"0000644\0");
    assert_eq!(&block[108..116], b"0001750\0");
    assert_eq!(&block[116..124], b"0001750\0");
    assert_eq!(&block[124..136], b"00000000005\0");
    assert_eq!(&block[136..148], b"14524770400\0");
    assert_eq!(&block[148..156], b"007044\0 ");
    assert_eq!(block[156], b'0');
    assert!(block[157..257].iter().all(|&b| b == 0));
    assert_eq!(&block[257..263], b"ustar\0");
    assert_eq!(&block[263..265], b"00");
    assert!(block[265..512].iter().all(|&b| b == 0));
}

#[test]
fn checksum_is_the_sum_with_the_field_blanked() {
    let block = HeaderBuilder::build("x.txt", &meta()).unwrap();
    let mut blank = block;
    for b in blank[148..156].iter_mut() {
        *b = b' ';
    }
    let sum: u32 = blank.iter().map(|&b| b as u32).sum();
    assert_eq!(sum, 3620);
    assert_eq!(&block[148..156], format!("{:06o}\0 ", sum).as_bytes());
}

#[test]
fn round_trip_gives_back_name_and_metadata() {
    let m = meta();
    let block = HeaderBuilder::build("x.txt", &m).unwrap();
    let parsed = HeaderParser::parse(&block).unwrap();
    assert_eq!(
        parsed,
        ParsedHeader {
            name: "x.txt".to_string(),
            size: m.size,
            mode: m.mode,
            uid: m.uid,
            gid: m.gid,
            mtime: m.mtime
        }
    );
    assert_eq!(HeaderValidator::validate(&block), Ok(()));
    assert_eq!(HeaderValidator::validate_checksum(&block), Ok(()));
    assert_eq!(HeaderParser::parse_size(&block), Ok(5));
}

#[test]
fn round_trip_at_the_limits_of_the_fields() {
    let m = FileMetadata {
        mode: 0o7777777,
        uid: 0o7777777,
        gid: 0,
        size: 0o77777777777,
        mtime: 0o77777777777,
    };
    let name = "n".repeat(100);
    let block = HeaderBuilder::build(&name, &m).unwrap();
    let parsed = HeaderParser::parse(&block).unwrap();
    assert_eq!(parsed.name, name);
    assert_eq!(parsed.mode, m.mode);
    assert_eq!(parsed.uid, m.uid);
    assert_eq!(parsed.gid, 0);
    assert_eq!(parsed.size, m.size);
    assert_eq!(parsed.mtime, m.mtime);
    assert_eq!(HeaderValidator::validate(&block), Ok(()));
}

#[test]
fn round_trip_of_a_name_that_is_not_ascii() {
    let name = "gr\u{fc}\u{df}e \u{65e5}\u{672c}.txt";
    let block = HeaderBuilder::build(name, &meta()).unwrap();
    let parsed = HeaderParser::parse(&block).unwrap();
    assert_eq!(parsed.name, name);
    assert_eq!(&block[0..name.len()], name.as_bytes());
    assert_eq!(HeaderValidator::validate(&block), Ok(()));
}

#[test]
fn build_refuses_names_no_header_can_hold() {
    let m = meta();
    for name in ["", "a/b", "/", "tail\0"] {
        assert_eq!(
            HeaderBuilder::build(name, &m),
            Err(HeaderError::InvalidFileName(name.to_string()))
        );
    }
    let long = "n".repeat(101);
    assert_eq!(
        HeaderBuilder::build(&long, &m),
        Err(HeaderError::InvalidFileName(long.clone()))
    );
    assert!(HeaderBuilder::build("in\0side", &m).is_ok());
}

#[test]
fn build_refuses_numbers_that_do_not_fit() {
    let wide = Err(HeaderError::IntConversion(IntErrorKind::PosOverflow));
    let mut m = meta();
    m.mode = 0o10000000;
    assert_eq!(HeaderBuilder::build("x", &m), wide);
    let mut m = meta();
    m.uid = u64::MAX;
    assert_eq!(HeaderBuilder::build("x", &m), wide);
    let mut m = meta();
    m.gid = 0o10000000;
    assert_eq!(HeaderBuilder::build("x", &m), wide);
    let mut m = meta();
    m.size = 0o100000000000;
    assert_eq!(HeaderBuilder::build("x", &m), wide);
    let mut m = meta();
    m.mtime = 0o100000000000;
    assert_eq!(HeaderBuilder::build("x", &m), wide);
}

#[test]
fn a_bad_name_is_reported_before_a_number() {
    let mut m = meta();
    m.mode = u64::MAX;
    assert_eq!(
        HeaderBuilder::build("a/b", &m),
        Err(HeaderError::InvalidFileName("a/b".to_string()))
    );
}

#[test]
fn build_from_path_takes_the_name_it_is_given() {
    let m = meta();
    let block = HeaderBuilder::build_from_path("dir/x.txt", Some("x.txt"), &m).unwrap();
    assert_eq!(block, HeaderBuilder::build("x.txt", &m).unwrap());
    assert_eq!(
        HeaderBuilder::build_from_path("dir/..", None, &m),
        Err(HeaderError::InvalidFileName("dir/..".to_string()))
    );
}

#[test]
fn write_octal_pads_with_zeros_and_ends_in_nul() {
    let mut field = [0xAAu8; 12];
    HeaderBuilder::write_octal(&mut field, 5, 12).unwrap();
    assert_eq!(&field[..], b"00000000005\0");
    let mut one = [0xAAu8; 3];
    HeaderBuilder::write_octal(&mut one, 0, 1).unwrap();
    assert_eq!(one, [0, 0xAA, 0xAA]);
    assert_eq!(
        HeaderBuilder::write_octal(&mut one, 1, 1),
        Err(HeaderError::IntConversion(IntErrorKind::PosOverflow))
    );
    assert_eq!(one, [0, 0xAA, 0xAA]);
}

#[test]
fn write_octal_of_the_largest_number() {
    let mut field = [1u8; 23];
    HeaderBuilder::write_octal(&mut field, u64::MAX, 23).unwrap();
    assert_eq!(&field[..], b"1777777777777777777777\0");
    assert_eq!(HeaderParser::read_octal(&field), Ok(u64::MAX));
    let mut short = [1u8; 22];
    assert!(HeaderBuilder::write_octal(&mut short, u64::MAX, 22).is_err());
}

#[test]
fn read_octal_trims_padding_and_white_space() {
    assert_eq!(HeaderParser::read_octal(b"0000644\0"), Ok(0o644));
    assert_eq!(HeaderParser::read_octal(b"644\0\0\0\0\0"), Ok(0o644));
    assert_eq!(HeaderParser::read_octal(b" 644 \0\0\0"), Ok(0o644));
    assert_eq!(HeaderParser::read_octal(b"\t\n644\r \0"), Ok(0o644));
    assert_eq!(HeaderParser::read_octal(b"+17\0"), Ok(15));
    assert_eq!(HeaderParser::read_octal(b"7"), Ok(7));
    assert_eq!(HeaderParser::read_octal("\u{a0}12\u{2003}\u{3000}\0".as_bytes()), Ok(10));
    assert_eq!(HeaderParser::read_octal("\u{1680}\u{205f}1\u{2028}\u{85}".as_bytes()), Ok(1));
}

#[test]
fn read_octal_says_why_it_fails() {
    let int = |k| Err(HeaderError::IntConversion(k));
    assert_eq!(HeaderParser::read_octal(b""), int(IntErrorKind::Empty));
    assert_eq!(HeaderParser::read_octal(b"\0\0\0\0"), int(IntErrorKind::Empty));
    assert_eq!(HeaderParser::read_octal(b"   \0"), int(IntErrorKind::Empty));
    assert_eq!(HeaderParser::read_octal(b"+"), int(IntErrorKind::InvalidDigit));
    assert_eq!(HeaderParser::read_octal(b"-"), int(IntErrorKind::InvalidDigit));
    assert_eq!(HeaderParser::read_octal(b"-1"), int(IntErrorKind::InvalidDigit));
    assert_eq!(HeaderParser::read_octal(b"++1"), int(IntErrorKind::InvalidDigit));
    assert_eq!(HeaderParser::read_octal(b"128"), int(IntErrorKind::InvalidDigit));
    assert_eq!(HeaderParser::read_octal(b"12 3"), int(IntErrorKind::InvalidDigit));
    assert_eq!(HeaderParser::read_octal(b"123\0 "), int(IntErrorKind::InvalidDigit));
    assert_eq!(HeaderParser::read_octal(b"1\x002"), int(IntErrorKind::InvalidDigit));
    assert_eq!(
        HeaderParser::read_octal(b"2000000000000000000000"),
        int(IntErrorKind::PosOverflow)
    );
    assert_eq!(
        HeaderParser::read_octal(b"17777777777777777777770"),
        int(IntErrorKind::PosOverflow)
    );
    assert_eq!(
        HeaderParser::read_octal(b"7777777777777777777777x"),
        int(IntErrorKind::PosOverflow)
    );
    assert_eq!(HeaderParser::read_octal(b"x7777777777777777777777"), int(IntErrorKind::InvalidDigit));
    assert_eq!(HeaderParser::read_octal(&[0x31, 0x80]), Err(HeaderError::Utf8Conversion));
    assert_eq!(HeaderParser::read_octal(&[0xC2]), Err(HeaderError::Utf8Conversion));
}

#[test]
fn read_octal_takes_leading_zeros_without_end() {
    assert_eq!(HeaderParser::read_octal(b"000000000000000000000000000000017"), Ok(15));
}

#[test]
fn parse_reports_the_first_field_that_fails() {
    let good = HeaderBuilder::build("x.txt", &meta()).unwrap();
    let mut block = good;
    block[0] = 0xFF;
    block[100] = b'9';
    assert_eq!(HeaderParser::parse(&block), Err(HeaderError::Utf8Conversion));
    let mut block = good;
    block[100] = b'9';
    block[124] = 0xFF;
    assert_eq!(
        HeaderParser::parse(&block),
        Err(HeaderError::IntConversion(IntErrorKind::InvalidDigit))
    );
    assert_eq!(HeaderParser::parse_size(&block), Err(HeaderError::Utf8Conversion));
    let mut block = good;
    for b in block[136..148].iter_mut() {
        *b = 0;
    }
    assert_eq!(
        HeaderParser::parse(&block),
        Err(HeaderError::IntConversion(IntErrorKind::Empty))
    );
}

#[test]
fn parse_does_not_look_at_magic_or_checksum() {
    let mut block = HeaderBuilder::build("x.txt", &meta()).unwrap();
    block[148] = b'x';
    block[257] = b'X';
    let parsed = HeaderParser::parse(&block).unwrap();
    assert_eq!(parsed.name, "x.txt");
    assert_eq!(parsed.size, 5);
}

#[test]
fn parse_of_a_name_that_fills_its_field() {
    let name = "m".repeat(100);
    let block = HeaderBuilder::build(&name, &meta()).unwrap();
    assert_eq!(block[99], b'm');
    assert_eq!(HeaderParser::parse(&block).unwrap().name, name);
}

#[test]
fn validate_tells_format_from_checksum() {
    let good = HeaderBuilder::build("x.txt", &meta()).unwrap();
    let mut block = good;
    block[257] = b'U';
    assert_eq!(HeaderValidator::validate(&block), Err(HeaderError::InvalidHeaderFormat));
    assert_eq!(HeaderValidator::validate_checksum(&block), Err(HeaderError::ChecksumMismatch));
    let mut block = good;
    block[264] = b'1';
    assert_eq!(HeaderValidator::validate(&block), Err(HeaderError::InvalidHeaderFormat));
    let mut block = good;
    block[0] = b'y';
    assert_eq!(HeaderValidator::validate(&block), Err(HeaderError::ChecksumMismatch));
    assert_eq!(HeaderValidator::validate(&[0u8; 512]), Err(HeaderError::InvalidHeaderFormat));
}

#[test]
fn any_changed_byte_outside_the_checksum_shows() {
    let good = HeaderBuilder::build("x.txt", &meta()).unwrap();
    for at in (0..148).chain(156..512) {
        for delta in [1u8, 0x80, 0xFF] {
            let mut block = good;
            block[at] = block[at].wrapping_add(delta);
            assert_eq!(
                HeaderValidator::validate_checksum(&block),
                Err(HeaderError::ChecksumMismatch)
            );
            let expected = if (257..265).contains(&at) {
                HeaderError::InvalidHeaderFormat
            } else {
                HeaderError::ChecksumMismatch
            };
            assert_eq!(HeaderValidator::validate(&block), Err(expected));
        }
    }
}

#[test]
fn checksum_field_may_end_in_nuls_or_spaces() {
    let good = HeaderBuilder::build("x.txt", &meta()).unwrap();
    let mut block = good;
    block[148..156].copy_from_slice(b"0007044\0");
    assert_eq!(HeaderValidator::validate(&block), Ok(()));
    let mut block = good;
    block[148..156].copy_from_slice(b"7044 \0 \0");
    assert_eq!(HeaderValidator::validate(&block), Ok(()));
    let mut block = good;
    block[148..156].copy_from_slice(b"00007044");
    assert_eq!(HeaderValidator::validate(&block), Ok(()));
    let mut block = good;
    block[148..156].copy_from_slice(b" 07044\0 ");
    assert_eq!(HeaderValidator::validate(&block), Err(HeaderError::ChecksumMismatch));
    let mut block = good;
    block[148..156].copy_from_slice(b"07044\0 7");
    assert_eq!(HeaderValidator::validate(&block), Err(HeaderError::ChecksumMismatch));
    let mut block = good;
    block[148..156].copy_from_slice(b"\0\0\0\0\0\0\0\0");
    assert_eq!(HeaderValidator::validate(&block), Err(HeaderError::ChecksumMismatch));
    let mut block = good;
    block[148..156].copy_from_slice(b"007045\0 ");
    assert_eq!(HeaderValidator::validate(&block), Err(HeaderError::ChecksumMismatch));
}

#[test]
fn header_error_from_its_parts() {
    assert_eq!(
        HeaderError::from(IntErrorKind::Empty),
        HeaderError::IntConversion(IntErrorKind::Empty)
    );
    assert_eq!(
        HeaderError::from(rustar::header::IoError::UnexpectedEof),
        HeaderError::Io(rustar::header::IoError::UnexpectedEof)
    );
}
