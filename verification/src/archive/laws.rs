//! What holds of the operations on archives taken together.

use super::appender::{extended, without_marker};
use super::builder::{archive_of, file_header, with_file, with_files};
use super::error::ArchiverError;
use super::extractor::{after_all, files_from, Extraction, FileData};
use super::lister::{after, entries_from, entries_of, list_outcome, ArchiveEntry};
use super::FileInput;
use crate::block::{all_zero, padding, zeros};
use crate::header::constants::{BLOCK_SIZE, CHECKSUM_DIGITS, END_MARKER_SIZE, TYPEFLAG_OFFSET};
use crate::header::laws::law_build_round_trip;
use crate::header::layout::{block_checksum, header_block, unsummed_block};
use crate::header::octal::lemma_octal_digits_len;
use crate::header::parser::{parse_result, size_value};
use crate::header::{header_data, HeaderData};
use crate::validation::structure::{ends_in_marker, scan_from, structure_result};
use crate::validation::ValidationError;
use vstd::prelude::*;
use vstd::utf8::encode_utf8;

verus! {

/// Whether two results of listing say the same: the same entries, or the
/// same error.
pub open spec fn same_listing(
    first: Result<Vec<ArchiveEntry>, ArchiverError>,
    second: Result<Vec<ArchiveEntry>, ArchiverError>,
) -> bool {
    match (first, second) {
        (Ok(a), Ok(b)) => a.deep_view() == b.deep_view(),
        (
            Err(ArchiverError::Validation(ValidationError::InvalidExtension(a))),
            Err(ArchiverError::Validation(ValidationError::InvalidExtension(b))),
        ) => a@ == b@,
        (Err(a), Err(b)) => a == b,
        _ => false,
    }
}

/// Listing is repeatable. What listing owes is fixed by the allowed
/// extensions, the archive's name and its bytes: two listings of one archive,
/// with nothing written in between, say the same.
pub proof fn law_listing_is_repeatable(
    allowed: Seq<Seq<char>>,
    name: Seq<char>,
    archive: Seq<u8>,
    first: Result<Vec<ArchiveEntry>, ArchiverError>,
    second: Result<Vec<ArchiveEntry>, ArchiverError>,
)
    requires
        list_outcome(allowed, name, archive, first),
        list_outcome(allowed, name, archive, second),
    ensures
        same_listing(first, second),
{
}

/// Adding files in two goes is adding them in one.
pub proof fn lemma_with_files_concat(archive: Seq<u8>, first: Seq<FileInput>, then: Seq<FileInput>)
    ensures
        with_files(with_files(archive, first), then) == with_files(archive, first + then),
    decreases first.len(),
{
    if first.len() == 0 {
        assert(first + then =~= then);
    } else {
        assert((first + then)[0] == first[0]);
        assert((first + then).skip(1) =~= first.skip(1) + then);
        lemma_with_files_concat(with_file(archive, first[0]), first.skip(1), then);
    }
}

/// Appending to an archive that was built gives the archive that would have
/// been built from all the files at once: the files of before, then the new.
pub proof fn law_append_continues_build(before: Seq<FileInput>, new: Seq<FileInput>)
    ensures
        extended(archive_of(before), new) == archive_of(before + new),
{
    let body = with_files(Seq::empty(), before);
    assert(without_marker(archive_of(before)) =~= body);
    lemma_with_files_concat(Seq::empty(), before, new);
}

/// An archive ends in an end marker once files were appended to it.
pub proof fn law_appended_archive_ends_in_marker(archive: Seq<u8>, files: Seq<FileInput>)
    ensures
        ends_in_marker(extended(archive, files)),
{
    let body = with_files(without_marker(archive), files);
    let all = extended(archive, files);
    assert(all.subrange(all.len() - END_MARKER_SIZE, all.len() as int) =~= zeros(
        END_MARKER_SIZE as nat,
    ));
}

/// A file whose header can be built and whose bytes are as many as its
/// metadata says.
pub open spec fn consistent(file: FileInput) -> bool {
    file_header(file) is Some && file.data@.len() == file.metadata.size
}

/// What a listing says of `file`, once it lies in an archive.
pub open spec fn entry_of(file: FileInput) -> HeaderData
    recommends
        file.file_name is Some,
{
    header_data(file.file_name.unwrap()@, file.metadata)
}

/// What a listing says of `files`.
pub open spec fn entries_for(files: Seq<FileInput>) -> Seq<HeaderData> {
    files.map_values(|file: FileInput| entry_of(file))
}

/// A header block is one block long, and not all zero.
pub proof fn lemma_header_block_shape(name: Seq<u8>, m: crate::header::FileMetadata)
    ensures
        header_block(name, m).len() == BLOCK_SIZE,
        !all_zero(header_block(name, m)),
{
    let raw = unsummed_block(name, m);
    lemma_octal_digits_len(block_checksum(raw), CHECKSUM_DIGITS as nat);
    assert(header_block(name, m)[TYPEFLAG_OFFSET as int] == raw[TYPEFLAG_OFFSET as int]);
}

/// On a block boundary a record is header, payload, and the padding that the
/// payload alone calls for. The next record begins on a boundary again.
pub proof fn lemma_with_file_on_boundary(archive: Seq<u8>, file: FileInput)
    requires
        archive.len() % (BLOCK_SIZE as nat) == 0,
        file_header(file) is Some,
    ensures
        with_file(archive, file) == archive + file_header(file).unwrap() + file.data@ + zeros(
            padding(file.data@.len() as int) as nat,
        ),
        with_file(archive, file).len() == archive.len() + BLOCK_SIZE + file.data@.len() + padding(
            file.data@.len() as int,
        ),
        with_file(archive, file).len() % (BLOCK_SIZE as nat) == 0,
{
    let name = encode_utf8(file.file_name.unwrap()@);
    lemma_header_block_shape(name, file.metadata);
    let unpadded = archive + file_header(file).unwrap() + file.data@;
    assert(padding(unpadded.len() as int) == padding(file.data@.len() as int));
}

/// Adding consistent files to an archive that ends on a block boundary
/// leaves it on one, and only makes it longer: what was there stays in front.
pub proof fn lemma_with_files_grows(archive: Seq<u8>, files: Seq<FileInput>)
    requires
        archive.len() % (BLOCK_SIZE as nat) == 0,
        forall|i: int| 0 <= i < files.len() ==> consistent(#[trigger] files[i]),
    ensures
        with_files(archive, files).len() % (BLOCK_SIZE as nat) == 0,
        archive.len() <= with_files(archive, files).len(),
        with_files(archive, files).subrange(0, archive.len() as int) == archive,
    decreases files.len(),
{
    if files.len() == 0 {
        assert(archive.subrange(0, archive.len() as int) =~= archive);
    } else {
        let next = with_file(archive, files[0]);
        lemma_with_file_on_boundary(archive, files[0]);
        assert forall|i: int| 0 <= i < files.skip(1).len() implies consistent(
            #[trigger] files.skip(1)[i],
        ) by {
            assert(files.skip(1)[i] == files[i + 1]);
        }
        lemma_with_files_grows(next, files.skip(1));
        let all = with_files(archive, files);
        assert(all.subrange(0, archive.len() as int) =~= all.subrange(0, next.len() as int).subrange(
            0,
            archive.len() as int,
        ));
        assert(next.subrange(0, archive.len() as int) =~= archive);
    }
}

/// Where the record of a consistent file lies in an archive, on a block
/// boundary, a reader takes its entry from the header and goes on behind the
/// record; so does the structural scan.
pub proof fn lemma_record_is_read(archive: Seq<u8>, pos: int, file: FileInput)
    requires
        0 <= pos,
        consistent(file),
        pos + BLOCK_SIZE + file.data@.len() + padding(file.data@.len() as int) <= archive.len(),
        archive.subrange(pos, pos + BLOCK_SIZE) == file_header(file).unwrap(),
    ensures
        entries_from(archive, pos) == after(
            entry_of(file),
            entries_from(
                archive,
                pos + BLOCK_SIZE + file.data@.len() + padding(file.data@.len() as int),
            ),
        ),
        scan_from(archive, pos) == scan_from(
            archive,
            pos + BLOCK_SIZE + file.data@.len() + padding(file.data@.len() as int),
        ),
{
    let name = file.file_name.unwrap()@;
    let block = archive.subrange(pos, pos + BLOCK_SIZE);
    lemma_header_block_shape(encode_utf8(name), file.metadata);
    law_build_round_trip(name, file.metadata);
    assert(parse_result(block) == Ok::<HeaderData, crate::header::HeaderError>(entry_of(file)));
    assert(size_value(block) == Ok::<u64, crate::header::HeaderError>(file.metadata.size));
}

/// The scan and the listing of a built archive from the record of the file
/// `k` on: the scan completes, and the listing gives the entries of the files
/// from `k` on.
proof fn lemma_built_archive_from(files: Seq<FileInput>, k: int)
    requires
        0 <= k <= files.len(),
        forall|i: int| 0 <= i < files.len() ==> consistent(#[trigger] files[i]),
    ensures
        scan_from(archive_of(files), with_files(Seq::empty(), files.take(k)).len() as int)
            is Complete,
        entries_from(archive_of(files), with_files(Seq::empty(), files.take(k)).len() as int)
            == Ok::<Seq<HeaderData>, ArchiverError>(entries_for(files.skip(k))),
    decreases files.len() - k,
{
    let body = with_files(Seq::empty(), files);
    let all = archive_of(files);
    let done = with_files(Seq::empty(), files.take(k));
    let pos = done.len() as int;
    lemma_with_files_grows(Seq::empty(), files);
    lemma_with_files_grows(Seq::empty(), files.take(k));
    if k == files.len() {
        assert(files.take(k) =~= files);
        assert(all_zero(all.subrange(pos, pos + BLOCK_SIZE)));
        assert(all_zero(all.subrange(pos + BLOCK_SIZE, pos + BLOCK_SIZE + BLOCK_SIZE)));
        assert(entries_for(files.skip(k)) =~= Seq::<HeaderData>::empty());
        reveal_with_fuel(scan_from, 3);
    } else {
        let file = files[k];
        let more = with_files(Seq::empty(), files.take(k + 1));
        assert(files.take(k).push(file) =~= files.take(k + 1));
        super::builder::lemma_with_files_push(Seq::empty(), files.take(k), file);
        lemma_with_file_on_boundary(done, file);
        // The longer prefix lies in front of the whole archive.
        assert(files.take(k + 1) + files.skip(k + 1) =~= files);
        lemma_with_files_concat(Seq::empty(), files.take(k + 1), files.skip(k + 1));
        assert forall|i: int| 0 <= i < files.skip(k + 1).len() implies consistent(
            #[trigger] files.skip(k + 1)[i],
        ) by {
            assert(files.skip(k + 1)[i] == files[k + 1 + i]);
        }
        lemma_with_files_grows(more, files.skip(k + 1));
        assert(body.subrange(0, more.len() as int) == more);
        assert(all.subrange(pos, pos + BLOCK_SIZE) =~= file_header(file).unwrap()) by {
            let name = encode_utf8(file.file_name.unwrap()@);
            lemma_header_block_shape(name, file.metadata);
            assert forall|i: int| 0 <= i < BLOCK_SIZE implies all.subrange(pos, pos + BLOCK_SIZE)[i]
                == file_header(file).unwrap()[i] by {
                assert(all[pos + i] == body[pos + i]);
                assert(body[pos + i] == body.subrange(0, more.len() as int)[pos + i]);
            }
        }
        lemma_record_is_read(all, pos, file);
        lemma_built_archive_from(files, k + 1);
        assert(entries_for(files.skip(k)) =~= seq![entry_of(file)] + entries_for(
            files.skip(k + 1),
        ));
    }
}

/// What is built can be read. The archive built from consistent files passes
/// the structural check, and its listing gives their names and metadata, in
/// their order. With no file at all the archive is the end marker alone, and
/// its listing is empty.
pub proof fn law_built_archive_lists_its_files(files: Seq<FileInput>)
    requires
        forall|i: int| 0 <= i < files.len() ==> consistent(#[trigger] files[i]),
    ensures
        structure_result(archive_of(files)) == Ok::<(), ValidationError>(()),
        entries_of(archive_of(files)) == Ok::<Seq<HeaderData>, ArchiverError>(entries_for(files)),
        archive_of(files).len() % (BLOCK_SIZE as nat) == 0,
        files.len() == 0 ==> archive_of(files) == zeros(END_MARKER_SIZE as nat),
{
    let all = archive_of(files);
    lemma_with_files_grows(Seq::empty(), files);
    assert(files.take(0) =~= Seq::<FileInput>::empty());
    assert(files.skip(0) =~= files);
    lemma_built_archive_from(files, 0);
    assert(all.subrange(all.len() - END_MARKER_SIZE, all.len() as int) =~= zeros(
        END_MARKER_SIZE as nat,
    ));
    if files.len() == 0 {
        assert(all =~= zeros(END_MARKER_SIZE as nat));
    }
}

/// What extraction gives for `file`, once it lies in an archive.
pub open spec fn extracted_of(file: FileInput) -> FileData
    recommends
        file.file_name is Some,
{
    FileData { name: file.file_name.unwrap()@, data: file.data@ }
}

/// What extraction gives for `files`.
pub open spec fn extracted_for(files: Seq<FileInput>) -> Seq<FileData> {
    files.map_values(|file: FileInput| extracted_of(file))
}

/// Whether extraction meets no name that is taken: none of `files` is
/// called as one of `taken`, and no two of them are called the same.
pub open spec fn names_are_free(files: Seq<FileInput>, taken: Seq<Seq<char>>) -> bool {
    &&& forall|i: int| 0 <= i < files.len() ==> !taken.contains(#[trigger] entry_of(files[i]).name)
    &&& forall|i: int, j: int|
        0 <= i < j < files.len() ==> #[trigger] entry_of(files[i]).name != #[trigger] entry_of(
            files[j],
        ).name
}

/// Where the record of a consistent file lies in an archive, on a block
/// boundary, and its name may be used, the extraction takes the file from
/// the record and goes on behind it, with the name taken.
pub proof fn lemma_record_is_extracted(
    archive: Seq<u8>,
    pos: int,
    file: FileInput,
    overwrite: bool,
    taken: Seq<Seq<char>>,
)
    requires
        0 <= pos,
        consistent(file),
        pos + BLOCK_SIZE + file.data@.len() + padding(file.data@.len() as int) <= archive.len(),
        archive.subrange(pos, pos + BLOCK_SIZE) == file_header(file).unwrap(),
        archive.subrange(pos + BLOCK_SIZE, pos + BLOCK_SIZE + file.data@.len()) == file.data@,
        overwrite || !taken.contains(entry_of(file).name),
    ensures
        files_from(archive, pos, overwrite, taken) == after_all(
            seq![extracted_of(file)],
            files_from(
                archive,
                pos + BLOCK_SIZE + file.data@.len() + padding(file.data@.len() as int),
                overwrite,
                taken.push(entry_of(file).name),
            ),
        ),
{
    let name = file.file_name.unwrap()@;
    let block = archive.subrange(pos, pos + BLOCK_SIZE);
    lemma_header_block_shape(encode_utf8(name), file.metadata);
    law_build_round_trip(name, file.metadata);
    assert(parse_result(block) == Ok::<HeaderData, crate::header::HeaderError>(entry_of(file)));
}

/// The extraction of a built archive from the record of the file `k` on.
proof fn lemma_built_archive_extracts_from(
    files: Seq<FileInput>,
    k: int,
    overwrite: bool,
    taken: Seq<Seq<char>>,
)
    requires
        0 <= k <= files.len(),
        forall|i: int| 0 <= i < files.len() ==> consistent(#[trigger] files[i]),
        overwrite || names_are_free(files.skip(k), taken),
    ensures
        files_from(
            archive_of(files),
            with_files(Seq::empty(), files.take(k)).len() as int,
            overwrite,
            taken,
        ) == Extraction::Files(extracted_for(files.skip(k))),
    decreases files.len() - k,
{
    let body = with_files(Seq::empty(), files);
    let all = archive_of(files);
    let done = with_files(Seq::empty(), files.take(k));
    let pos = done.len() as int;
    lemma_with_files_grows(Seq::empty(), files);
    lemma_with_files_grows(Seq::empty(), files.take(k));
    if k == files.len() {
        assert(files.take(k) =~= files);
        assert(all_zero(all.subrange(pos, pos + BLOCK_SIZE)));
        assert(extracted_for(files.skip(k)) =~= Seq::<FileData>::empty());
    } else {
        let file = files[k];
        let name = entry_of(file).name;
        let more = with_files(Seq::empty(), files.take(k + 1));
        assert(files.take(k).push(file) =~= files.take(k + 1));
        super::builder::lemma_with_files_push(Seq::empty(), files.take(k), file);
        lemma_with_file_on_boundary(done, file);
        assert(files.take(k + 1) + files.skip(k + 1) =~= files);
        lemma_with_files_concat(Seq::empty(), files.take(k + 1), files.skip(k + 1));
        assert forall|i: int| 0 <= i < files.skip(k + 1).len() implies consistent(
            #[trigger] files.skip(k + 1)[i],
        ) by {
            assert(files.skip(k + 1)[i] == files[k + 1 + i]);
        }
        lemma_with_files_grows(more, files.skip(k + 1));
        assert(body.subrange(0, more.len() as int) == more);
        let header = file_header(file).unwrap();
        lemma_header_block_shape(encode_utf8(file.file_name.unwrap()@), file.metadata);
        assert forall|i: int| 0 <= i < more.len() implies all[i] == more[i] by {
            assert(all[i] == body[i]);
            assert(body[i] == body.subrange(0, more.len() as int)[i]);
        }
        assert(all.subrange(pos, pos + BLOCK_SIZE) =~= header);
        assert(all.subrange(pos + BLOCK_SIZE, pos + BLOCK_SIZE + file.data@.len()) =~= file.data@);
        if !overwrite {
            assert(files.skip(k)[0] == file);
            assert(!taken.contains(name));
            let rest = files.skip(k + 1);
            let next_taken = taken.push(name);
            assert forall|i: int| 0 <= i < rest.len() implies !next_taken.contains(
                #[trigger] entry_of(rest[i]).name,
            ) by {
                assert(rest[i] == files.skip(k)[i + 1]);
                let other = entry_of(files.skip(k)[i + 1]).name;
                assert(!taken.contains(other));
                assert(entry_of(files.skip(k)[0]).name != other);
                if next_taken.contains(other) {
                    let at = choose|at: int| 0 <= at < next_taken.len() && next_taken[at] == other;
                    if at < taken.len() {
                        assert(taken[at] == other);
                    }
                }
            }
            assert forall|i: int, j: int| 0 <= i < j < rest.len() implies #[trigger] entry_of(
                rest[i],
            ).name != #[trigger] entry_of(rest[j]).name by {
                assert(rest[i] == files.skip(k)[i + 1]);
                assert(rest[j] == files.skip(k)[j + 1]);
            }
        }
        lemma_record_is_extracted(all, pos, file, overwrite, taken);
        lemma_built_archive_extracts_from(files, k + 1, overwrite, taken.push(name));
        assert(extracted_for(files.skip(k)) =~= seq![extracted_of(file)] + extracted_for(
            files.skip(k + 1),
        ));
    }
}

/// What is built can be taken out again. The extraction of the archive
/// built from consistent files gives their names and their bytes, in their
/// order, when it may overwrite, and also when it may not but no name is
/// taken: none by a file that exists, and none twice.
pub proof fn law_built_archive_gives_back_its_files(
    files: Seq<FileInput>,
    overwrite: bool,
    occupied: Seq<Seq<char>>,
)
    requires
        forall|i: int| 0 <= i < files.len() ==> consistent(#[trigger] files[i]),
        overwrite || names_are_free(files, occupied),
    ensures
        files_from(archive_of(files), 0, overwrite, occupied) == Extraction::Files(
            extracted_for(files),
        ),
{
    assert(files.take(0) =~= Seq::<FileInput>::empty());
    assert(files.skip(0) =~= files);
    lemma_built_archive_extracts_from(files, 0, overwrite, occupied);
}

} // verus!
