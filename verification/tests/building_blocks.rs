use rustar::archive::appender::append_records;
use rustar::archive::builder::{add_files, append_bytes, append_zeros};
use rustar::archive::extractor::extract_entries;
use rustar::archive::lister::{names_of, read_entries};
use rustar::archive::{ArchiveBuilder, ArchiveEntry, ArchiverError, FileInput};
use rustar::block::{is_all_zero, padding_for};
use rustar::header::layout::checksum_of;
use rustar::header::octal::{decode_octal, encode_octal};
use rustar::header::text::trimmed_len;
use rustar::header::{FileMetadata, HeaderBuilder, HeaderError, IntErrorKind, IoError};

fn file(name: &str, data: &[u8]) -> FileInput {
    FileInput {
        path: name.to_string(),
        file_name: Some(name.to_string()),
        metadata: FileMetadata { mode: 0o755, uid: 1, gid: 2, size: data.len() as u64, mtime: 3 },
        data: data.to_vec(),
    }
}

#[test]
fn padding_brings_a_length_to_the_next_boundary() {
    assert_eq!(padding_for(0), 0);
    assert_eq!(padding_for(1), 511);
    assert_eq!(padding_for(5), 507);
    assert_eq!(padding_for(511), 1);
    assert_eq!(padding_for(512), 0);
    assert_eq!(padding_for(513), 511);
    assert_eq!(padding_for(0o77777777777), 1);
    assert_eq!(padding_for(u64::MAX), 1);
}

#[test]
fn all_zero_means_every_byte() {
    assert!(is_all_zero(&[]));
    assert!(is_all_zero(&[0u8; 512]));
    let mut block = [0u8; 512];
    block[511] = 1;
    assert!(!is_all_zero(&block));
    block[511] = 0;
    block[0] = 0x80;
    assert!(!is_all_zero(&block));
}

#[test]
fn encode_octal_gives_exactly_the_digits_asked_for() {
    assert_eq!(encode_octal(0, 0), Some(Vec::new()));
    assert_eq!(encode_octal(1, 0), None);
    assert_eq!(encode_octal(0, 3), Some(b"000".to_vec()));
    assert_eq!(encode_octal(7, 1), Some(b"7".to_vec()));
    assert_eq!(encode_octal(8, 1), None);
    assert_eq!(encode_octal(8, 2), Some(b"10".to_vec()));
    assert_eq!(encode_octal(0o644, 7), Some(b"0000644".to_vec()));
    assert_eq!(encode_octal(0o7777777, 7), Some(b"7777777".to_vec()));
    assert_eq!(encode_octal(0o10000000, 7), None);
    assert_eq!(encode_octal(u64::MAX, 22), Some(b"1777777777777777777777".to_vec()));
    assert_eq!(encode_octal(u64::MAX, 21), None);
    assert_eq!(encode_octal(u64::MAX, 24), Some(b"001777777777777777777777".to_vec()));
}

#[test]
fn decode_octal_reads_what_encode_octal_wrote() {
    for value in [0u64, 1, 7, 8, 0o644, 0o7777777, 1 << 32, u64::MAX] {
        let mut field = encode_octal(value, 22).unwrap();
        field.push(0);
        assert_eq!(decode_octal(&field), Ok(value));
    }
    assert_eq!(decode_octal(b"8"), Err(HeaderError::IntConversion(IntErrorKind::InvalidDigit)));
}

#[test]
fn trimmed_len_stops_at_the_last_byte_that_is_not_nul() {
    assert_eq!(trimmed_len(b""), 0);
    assert_eq!(trimmed_len(b"\0\0\0"), 0);
    assert_eq!(trimmed_len(b"abc"), 3);
    assert_eq!(trimmed_len(b"abc\0\0"), 3);
    assert_eq!(trimmed_len(b"a\0c\0"), 3);
    assert_eq!(trimmed_len(b"\0a"), 2);
}

#[test]
fn checksum_counts_its_own_field_as_spaces() {
    assert_eq!(checksum_of(&[0u8; 512]), 256);
    assert_eq!(checksum_of(&[1u8; 512]), 256 + 504);
    assert_eq!(checksum_of(&[255u8; 512]), 256 + 504 * 255);
    let mut block = [0u8; 512];
    for b in block[148..156].iter_mut() {
        *b = 0xEE;
    }
    assert_eq!(checksum_of(&block), 256);
    block[147] = 2;
    block[156] = 3;
    assert_eq!(checksum_of(&block), 261);
}

#[test]
fn append_zeros_and_bytes_only_append() {
    let mut v = vec![1u8, 2];
    append_zeros(&mut v, 3);
    assert_eq!(v, vec![1, 2, 0, 0, 0]);
    append_bytes(&mut v, b"xy");
    assert_eq!(v, vec![1, 2, 0, 0, 0, b'x', b'y']);
    append_zeros(&mut v, 0);
    append_bytes(&mut v, b"");
    assert_eq!(v.len(), 7);
}

#[test]
fn add_files_writes_no_end_marker() {
    let mut archive = Vec::new();
    add_files(&mut archive, &vec![file("a", b"1"), file("b", b"")]).unwrap();
    assert_eq!(archive.len(), 1024 + 512);
    assert_eq!(&archive[0..512], &HeaderBuilder::build("a", &file("a", b"1").metadata).unwrap()[..]);
    assert_eq!(archive[512], b'1');
    assert_eq!(&archive[1024..], &HeaderBuilder::build("b", &file("b", b"").metadata).unwrap()[..]);
    let mut bad = file("c", b"");
    bad.metadata.gid = u64::MAX;
    let before = archive.clone();
    assert_eq!(
        add_files(&mut archive, &vec![bad, file("d", b"")]),
        Err(ArchiverError::HeaderError(HeaderError::IntConversion(IntErrorKind::PosOverflow)))
    );
    assert_eq!(archive, before);
}

#[test]
fn append_records_replaces_the_last_two_blocks() {
    let mut archive = vec![9u8; 1024 + 10];
    append_records(&mut archive, &vec![file("a", b"hello")]).unwrap();
    assert_eq!(archive.len(), 1024 + 1024);
    assert!(archive[..10].iter().all(|&b| b == 9));
    assert_eq!(
        &archive[10..522],
        &HeaderBuilder::build("a", &file("a", b"hello").metadata).unwrap()[..]
    );
    assert_eq!(&archive[522..527], b"hello");
    assert!(archive[527..].iter().all(|&b| b == 0));
}

#[test]
fn read_entries_does_not_validate() {
    let mut archive = ArchiveBuilder::new().build(&vec![file("a", b"hello")]).unwrap();
    archive[257] = b'X';
    archive[150] = b'9';
    let entries = read_entries(&archive).unwrap();
    assert_eq!(
        entries,
        vec![ArchiveEntry {
            name: "a".to_string(),
            size: 5,
            mode: 0o755,
            uid: 1,
            gid: 2,
            mtime: 3
        }]
    );
    assert_eq!(names_of(entries), vec!["a".to_string()]);
    assert_eq!(names_of(Vec::new()), Vec::<String>::new());
    assert_eq!(read_entries(&[]), Err(ArchiverError::Io(IoError::UnexpectedEof)));
    assert_eq!(read_entries(&[0u8; 512]), Ok(Vec::new()));
    assert_eq!(read_entries(&[0u8; 511]), Err(ArchiverError::Io(IoError::UnexpectedEof)));
}

#[test]
fn extract_entries_checks_names_only_where_it_may_not_overwrite() {
    let archive = ArchiveBuilder::new().build(&vec![file("a", b"1"), file("b", b"22")]).unwrap();
    let taken = vec!["b".to_string()];
    let all = extract_entries(&archive, true, &taken).unwrap();
    assert_eq!(all.len(), 2);
    assert_eq!(all[1].data, b"22".to_vec());
    assert_eq!(
        extract_entries(&archive, false, &taken),
        Err(ArchiverError::UnsupportedFeature("File exists and overwrite disabled".to_string()))
    );
    assert_eq!(extract_entries(&archive, false, &vec!["c".to_string()]).unwrap(), all);
    assert_eq!(extract_entries(&[0u8; 1024], false, &taken), Ok(Vec::new()));
}

#[test]
fn a_taken_name_is_reported_before_a_payload_that_is_cut() {
    let archive = ArchiveBuilder::new().build(&vec![file("a", &[1u8; 600])]).unwrap();
    let cut = &archive[..1000];
    assert_eq!(
        extract_entries(cut, false, &vec!["a".to_string()]),
        Err(ArchiverError::UnsupportedFeature("File exists and overwrite disabled".to_string()))
    );
    assert_eq!(
        extract_entries(cut, false, &Vec::new()),
        Err(ArchiverError::Io(IoError::UnexpectedEof))
    );
}
