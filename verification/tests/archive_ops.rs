use rustar::archive::{
    ArchiveAppender, ArchiveBuilder, ArchiveEntry, ArchiveExtractor, ArchiveLister, Archiver,
    ArchiverError, ExtractedFile, FileInput,
};
use rustar::header::{FileMetadata, HeaderBuilder, HeaderError, IntErrorKind, IoError};
use rustar::validation::{ArchiveValidator, StructureError, ValidationError};

const EXISTS: &str = "File exists and overwrite disabled";

fn archiver() -> Archiver {
    Archiver::new(vec!["tar".to_string(), "rustar".to_string()])
}

fn validator() -> ArchiveValidator {
    ArchiveValidator::new(vec!["tar".to_string()])
}

fn file(name: &str, mode: u64, data: &[u8]) -> FileInput {
    FileInput {
        path: name.to_string(),
        file_name: Some(name.to_string()),
        metadata: FileMetadata { mode, uid: 501, gid: 20, size: data.len() as u64, mtime: 1234567 },
        data: data.to_vec(),
    }
}

fn entry(name: &str, mode: u64, size: u64) -> ArchiveEntry {
    ArchiveEntry { name: name.to_string(), size, mode, uid: 501, gid: 20, mtime: 1234567 }
}

fn x() -> FileInput {
    file("x.txt", 0o644, b"hello")
}

fn y() -> FileInput {
    file("y.txt", 0o600, b"world!")
}

fn bad_extension<T>(ext: &str) -> Result<T, ArchiverError> {
    Err(ArchiverError::Validation(ValidationError::InvalidExtension(ext.to_string())))
}

#[test]
fn one_small_file_makes_four_blocks() {
    let a = archiver();
    let archive = a.create("a.tar", &vec![x()]).unwrap();
    assert_eq!(archive.len(), 2048);
    assert_eq!(&archive[0..512], &HeaderBuilder::build("x.txt", &x().metadata).unwrap()[..]);
    assert_eq!(&archive[512..517], b"hello");
    assert!(archive[517..].iter().all(|&b| b == 0));
    let entries = a.list("a.tar", &archive).unwrap();
    assert_eq!(entries, vec![entry("x.txt", 0o644, 5)]);
    assert_eq!(entries[0].name, "x.txt");
    assert_eq!(entries[0].size, 5);
    assert_eq!(entries[0].mode, 0o644);
}

#[test]
fn no_file_makes_the_end_marker_alone() {
    let a = archiver();
    let archive = a.create("a.tar", &Vec::new()).unwrap();
    assert_eq!(archive, vec![0u8; 1024]);
    assert_eq!(a.list("a.tar", &archive), Ok(Vec::new()));
    assert_eq!(a.extract("a.tar", &archive, &Vec::new()), Ok(Vec::new()));
}

#[test]
fn an_existing_target_is_not_overwritten() {
    let a = archiver();
    let archive = a.create("a.tar", &vec![x()]).unwrap();
    let occupied = vec!["x.txt".to_string()];
    assert_eq!(
        a.extract("a.tar", &archive, &occupied),
        Err(ArchiverError::UnsupportedFeature(EXISTS.to_string()))
    );
    let other = vec!["z.txt".to_string()];
    assert_eq!(
        a.extract("a.tar", &archive, &other),
        Ok(vec![ExtractedFile { name: "x.txt".to_string(), data: b"hello".to_vec() }])
    );
}

#[test]
fn an_existing_target_stops_the_extraction_where_it_is_met() {
    let a = archiver();
    let archive = a.create("a.tar", &vec![x(), y()]).unwrap();
    let occupied = vec!["y.txt".to_string()];
    assert_eq!(
        a.extract("a.tar", &archive, &occupied),
        Err(ArchiverError::UnsupportedFeature(EXISTS.to_string()))
    );
}

#[test]
fn appended_files_are_listed_after_the_old() {
    let a = archiver();
    let mut archive = a.create("a.tar", &vec![x()]).unwrap();
    assert_eq!(archive.len(), 2048);
    a.append("a.tar", &mut archive, &vec![y()]).unwrap();
    let entries = a.list("a.tar", &archive).unwrap();
    assert_eq!(entries, vec![entry("x.txt", 0o644, 5), entry("y.txt", 0o600, 6)]);
    assert_eq!(archive.len(), 3072);
    assert!(archive[archive.len() - 1024..].iter().all(|&b| b == 0));
    assert_eq!(&archive[1024 + 512..1024 + 518], b"world!");
}

#[test]
fn appending_is_building_with_more_files() {
    let a = archiver();
    let mut archive = a.create("a.tar", &vec![x(), y()]).unwrap();
    let more = vec![file("big.bin", 0o755, &[3u8; 513]), file("none", 0o400, b"")];
    a.append("a.tar", &mut archive, &more).unwrap();
    let all = vec![x(), y(), file("big.bin", 0o755, &[3u8; 513]), file("none", 0o400, b"")];
    assert_eq!(archive, a.create("b.rustar", &all).unwrap());
}

#[test]
fn appending_nothing_changes_nothing() {
    let a = archiver();
    let built = a.create("a.tar", &vec![x()]).unwrap();
    let mut archive = built.clone();
    a.append("a.tar", &mut archive, &Vec::new()).unwrap();
    assert_eq!(archive, built);
}

#[test]
fn listing_twice_gives_the_same() {
    let a = archiver();
    let archive = a.create("a.tar", &vec![x(), y()]).unwrap();
    let first = a.list("a.tar", &archive);
    let second = a.list("a.tar", &archive);
    assert_eq!(first, second);
    assert_eq!(first.unwrap().len(), 2);
    let broken = vec![1u8; 1024];
    assert_eq!(a.list("a.tar", &broken), a.list("a.tar", &broken));
}

#[test]
fn extraction_gives_every_payload_in_order() {
    let a = archiver();
    let big = vec![9u8; 1025];
    let files = vec![x(), file("empty", 0o644, b""), file("big", 0o644, &big), y()];
    let archive = a.create("a.tar", &files).unwrap();
    let out = a.extract("a.tar", &archive, &Vec::new()).unwrap();
    assert_eq!(out.len(), 4);
    assert_eq!(out[0], ExtractedFile { name: "x.txt".to_string(), data: b"hello".to_vec() });
    assert_eq!(out[1], ExtractedFile { name: "empty".to_string(), data: Vec::new() });
    assert_eq!(out[2], ExtractedFile { name: "big".to_string(), data: big });
    assert_eq!(out[3], ExtractedFile { name: "y.txt".to_string(), data: b"world!".to_vec() });
}

#[test]
fn payload_is_padded_to_whole_blocks() {
    let b = ArchiveBuilder::new();
    for (len, blocks) in [(0usize, 0usize), (1, 1), (511, 1), (512, 1), (513, 2), (1024, 2)] {
        let archive = b.build(&vec![file("f", 0o644, &vec![5u8; len])]).unwrap();
        assert_eq!(archive.len(), 512 + blocks * 512 + 1024);
        assert!(archive[512..512 + len].iter().all(|&b| b == 5));
        assert!(archive[512 + len..].iter().all(|&b| b == 0));
    }
}

#[test]
fn the_archive_must_be_called_as_allowed() {
    let a = archiver();
    assert_eq!(a.create("a.zip", &vec![x()]), bad_extension("zip"));
    assert_eq!(a.create("a", &vec![x()]), bad_extension(""));
    assert!(a.create("a.RUSTAR", &vec![x()]).is_ok());
    let archive = a.create("a.tar", &vec![x()]).unwrap();
    assert_eq!(a.list("a.tgz", &archive), bad_extension("tgz"));
    assert_eq!(a.extract("a.tgz", &archive, &Vec::new()), bad_extension("tgz"));
    let mut copy = archive.clone();
    assert_eq!(a.append("a.tgz", &mut copy, &vec![y()]), bad_extension("tgz"));
    assert_eq!(copy, archive);
}

#[test]
fn a_malformed_archive_is_refused_untouched() {
    let a = archiver();
    let small = || {
        ArchiverError::Validation(ValidationError::InvalidStructure(StructureError::TooSmall {
            size: 100,
        }))
    };
    let mut archive = vec![0u8; 100];
    assert_eq!(a.list("a.tar", &archive), Err(small()));
    assert_eq!(a.extract("a.tar", &archive, &Vec::new()), Err(small()));
    assert_eq!(
        a.append("a.tar", &mut archive, &vec![x()]),
        Err(ArchiverError::Validation(ValidationError::InvalidStructure(
            StructureError::TooSmall { size: 100 }
        )))
    );
    assert_eq!(archive, vec![0u8; 100]);
    let mut archive = a.create("a.tar", &vec![x()]).unwrap();
    archive[1] ^= 1;
    let before = archive.clone();
    let mismatch = ArchiverError::Validation(ValidationError::InvalidStructure(
        StructureError::Header(HeaderError::ChecksumMismatch),
    ));
    assert_eq!(a.append("a.tar", &mut archive, &vec![y()]), Err(mismatch));
    assert_eq!(archive, before);
}

#[test]
fn building_stops_at_the_first_file_without_a_header() {
    let a = archiver();
    let mut wide = y();
    wide.metadata.uid = 0o10000000;
    let mut nameless = y();
    nameless.file_name = None;
    nameless.path = "/".to_string();
    assert_eq!(
        a.create("a.tar", &vec![x(), wide, nameless]),
        Err(ArchiverError::HeaderError(HeaderError::IntConversion(IntErrorKind::PosOverflow)))
    );
    let mut nameless = y();
    nameless.file_name = None;
    nameless.path = "/".to_string();
    assert_eq!(
        a.create("a.tar", &vec![nameless, x()]),
        Err(ArchiverError::HeaderError(HeaderError::InvalidFileName("/".to_string())))
    );
    assert_eq!(
        a.create("a.tar", &vec![file("a/b", 0o644, b"")]),
        Err(ArchiverError::HeaderError(HeaderError::InvalidFileName("a/b".to_string())))
    );
}

#[test]
fn a_failed_append_leaves_the_records_so_far_and_no_end_marker() {
    let a = archiver();
    let mut archive = a.create("a.tar", &vec![x()]).unwrap();
    let mut bad = file("bad", 0o644, b"zzz");
    bad.metadata.size = u64::MAX;
    let r = a.append("a.tar", &mut archive, &vec![y(), bad, file("late", 0o644, b"")]);
    assert_eq!(
        r,
        Err(ArchiverError::HeaderError(HeaderError::IntConversion(IntErrorKind::PosOverflow)))
    );
    let both = a.create("a.tar", &vec![x(), y()]).unwrap();
    assert_eq!(archive.len(), 2048);
    assert_eq!(archive[..], both[..2048]);
}

#[test]
fn add_file_and_end_marker_build_an_archive_step_by_step() {
    let b = ArchiveBuilder::new();
    let mut archive = Vec::new();
    b.add_file(&mut archive, &x()).unwrap();
    assert_eq!(archive.len(), 1024);
    b.add_file(&mut archive, &y()).unwrap();
    assert_eq!(archive.len(), 2048);
    let mut bad = x();
    bad.file_name = Some(String::new());
    assert_eq!(
        b.add_file(&mut archive, &bad),
        Err(ArchiverError::HeaderError(HeaderError::InvalidFileName(String::new())))
    );
    assert_eq!(archive.len(), 2048);
    b.write_end_marker(&mut archive);
    assert_eq!(archive, b.build(&vec![x(), y()]).unwrap());
}

#[test]
fn add_file_pads_from_where_the_archive_stands() {
    let b = ArchiveBuilder::new();
    let mut archive = vec![1u8; 100];
    b.add_file(&mut archive, &x()).unwrap();
    assert_eq!(archive.len(), 1024);
    assert_eq!(&archive[612..617], b"hello");
    assert!(archive[617..].iter().all(|&b| b == 0));
    let p = ArchiveAppender::new(validator());
    p.append_file(&mut archive, &y()).unwrap();
    assert_eq!(archive.len(), 2048);
    assert_eq!(&archive[1536..1542], b"world!");
}

#[test]
fn the_size_in_the_header_is_the_size_in_the_metadata() {
    let b = ArchiveBuilder::new();
    let mut odd = x();
    odd.metadata.size = 2;
    let archive = b.build(&vec![odd]).unwrap();
    assert_eq!(&archive[124..136], b"00000000002\0");
    assert_eq!(&archive[512..517], b"hello");
    let l = ArchiveLister::new(validator());
    assert_eq!(l.list("a.tar", &archive).unwrap()[0].size, 2);
    let e = ArchiveExtractor::new(validator());
    assert_eq!(e.extract("a.tar", &archive, &Vec::new()).unwrap()[0].data, b"he".to_vec());
}

#[test]
fn the_lister_stops_at_the_first_zero_block() {
    let l = ArchiveLister::new(validator());
    let b = ArchiveBuilder::new();
    let mut archive = Vec::new();
    b.add_file(&mut archive, &x()).unwrap();
    archive.extend_from_slice(&[0u8; 512]);
    b.add_file(&mut archive, &y()).unwrap();
    b.write_end_marker(&mut archive);
    assert_eq!(l.list("a.tar", &archive), Ok(vec![entry("x.txt", 0o644, 5)]));
    assert_eq!(l._list_names("a.tar", &archive), Ok(vec!["x.txt".to_string()]));
    let e = ArchiveExtractor::new(validator());
    assert_eq!(e.extract("a.tar", &archive, &Vec::new()).unwrap().len(), 1);
}

#[test]
fn an_archive_that_ends_early_is_an_unexpected_end() {
    let l = ArchiveLister::new(validator());
    let e = ArchiveExtractor::new(validator());
    let m = FileMetadata { mode: 0o644, uid: 0, gid: 0, size: 1024, mtime: 0 };
    let mut archive = HeaderBuilder::build("x.bin", &m).unwrap().to_vec();
    archive.extend_from_slice(&[0u8; 1024]);
    let eof = ArchiverError::Io(IoError::UnexpectedEof);
    assert_eq!(l.list("a.tar", &archive), Err(ArchiverError::Io(IoError::UnexpectedEof)));
    assert_eq!(e.extract("a.tar", &archive, &Vec::new()), Err(eof));
    let m = FileMetadata { mode: 0o644, uid: 0, gid: 0, size: 513, mtime: 0 };
    let mut cut = HeaderBuilder::build("x.bin", &m).unwrap().to_vec();
    cut.extend_from_slice(&[0u8; 988]);
    assert_eq!(l.list("a.tar", &cut), Err(ArchiverError::Io(IoError::UnexpectedEof)));
    assert_eq!(
        e.extract("a.tar", &cut, &Vec::new()),
        Err(ArchiverError::Io(IoError::UnexpectedEof))
    );
}

#[test]
fn a_header_that_cannot_be_read_ends_the_listing() {
    let l = ArchiveLister::new(validator());
    let b = ArchiveBuilder::new();
    let mut archive = b.build(&vec![x()]).unwrap();
    archive.truncate(1024);
    let mut header = HeaderBuilder::build("y", &y().metadata).unwrap();
    header[148..156].copy_from_slice(b"        ");
    header[100] = b'8';
    let mut sum: u32 = 0;
    for byte in header.iter() {
        sum += *byte as u32;
    }
    header[148..156].copy_from_slice(format!("{:06o}\0 ", sum).as_bytes());
    archive.extend_from_slice(&header);
    archive.extend_from_slice(&[0u8; 1024 + 512]);
    assert_eq!(
        l.list("a.tar", &archive),
        Err(ArchiverError::HeaderError(HeaderError::IntConversion(
            IntErrorKind::InvalidDigit
        )))
    );
}

#[test]
fn a_name_that_comes_twice_takes_its_own_place() {
    let b = ArchiveBuilder::new();
    let archive = b.build(&vec![x(), y(), file("x.txt", 0o644, b"again")]).unwrap();
    let mut e = ArchiveExtractor::new(validator());
    assert_eq!(
        e.extract("a.tar", &archive, &Vec::new()),
        Err(ArchiverError::UnsupportedFeature(EXISTS.to_string()))
    );
    e._set_overwrite(true);
    let out = e.extract("a.tar", &archive, &vec!["y.txt".to_string()]).unwrap();
    assert_eq!(out.len(), 3);
    assert_eq!(out[2].data, b"again".to_vec());
    e._set_overwrite(true)._set_overwrite(false);
    assert_eq!(
        e.extract("a.tar", &archive, &vec!["y.txt".to_string()]),
        Err(ArchiverError::UnsupportedFeature(EXISTS.to_string()))
    );
}

#[test]
fn show_metadata_does_not_change_the_listing() {
    let archive = ArchiveBuilder::new().build(&vec![x(), y()]).unwrap();
    let mut l = ArchiveLister::new(validator());
    let plain = l.list("a.tar", &archive).unwrap();
    l.show_metadata(true);
    assert_eq!(l.list("a.tar", &archive).unwrap(), plain);
    l.show_metadata(false).show_metadata(true);
    assert_eq!(
        l._list_names("a.tar", &archive),
        Ok(vec!["x.txt".to_string(), "y.txt".to_string()])
    );
}

#[test]
fn archiver_error_from_its_parts() {
    assert_eq!(
        ArchiverError::from(HeaderError::ChecksumMismatch),
        ArchiverError::HeaderError(HeaderError::ChecksumMismatch)
    );
    assert_eq!(
        ArchiverError::from(ValidationError::InvalidContent("odd".to_string())),
        ArchiverError::Validation(ValidationError::InvalidContent("odd".to_string()))
    );
    assert_eq!(
        ArchiverError::from(IoError::UnexpectedEof),
        ArchiverError::Io(IoError::UnexpectedEof)
    );
}
