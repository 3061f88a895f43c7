//! Reading zip archives held in memory.
//!
//! The archive is opened over its raw bytes, so every outcome is a function
//! of those bytes alone: whether the central directory parses
//! (`zip_parses`), which entries it lists (`zip_entries_of`), and whether
//! every entry decompresses (`zip_reads_fully`). The readers' contracts
//! speak of the opened archive's entry list (`zip_entries`) and per-entry
//! readability (`entry_readable`), which opening ties back to the bytes.

use vstd::prelude::*;

use std::io::Cursor;

verus! {

/// Why reading an archive failed, with the underlying cause's rendering.
#[derive(Debug, PartialEq, Eq)]
pub enum ArchiveError {
    /// The archive's table of contents could not be read.
    OpenFailed(String),
    /// An entry could not be read or decompressed.
    ReadFailed(String),
}

impl ArchiveError {
    /// The underlying cause, as the zip reader rendered it.
    pub fn detail(&self) -> (r: &String)
        ensures
            r@ == match *self {
                ArchiveError::OpenFailed(d) => d@,
                ArchiveError::ReadFailed(d) => d@,
            },
    {
        match self {
            ArchiveError::OpenFailed(d) => d,
            ArchiveError::ReadFailed(d) => d,
        }
    }
}

#[verifier::external_type_specification]
#[verifier::external_body]
#[verifier::reject_recursive_types(R)]
pub struct ExZipArchive<R>(zip::ZipArchive<R>);

#[verifier::external_type_specification]
#[verifier::external_body]
#[verifier::reject_recursive_types(T)]
pub struct ExCursor<T>(Cursor<T>);

/// Whether `zip::ZipArchive::new` parses these bytes' central directory.
pub uninterp spec fn zip_parses(bytes: Seq<u8>) -> bool;

/// The entry list (stored name, decompressed content) that these bytes
/// describe, when they parse.
pub uninterp spec fn zip_entries_of(bytes: Seq<u8>) -> Seq<(Seq<char>, Seq<u8>)>;

/// Whether every entry of the archive these bytes describe decompresses
/// without error.
pub uninterp spec fn zip_reads_fully(bytes: Seq<u8>) -> bool;

/// The entry list of an opened archive.
pub uninterp spec fn zip_entries(a: zip::ZipArchive<Cursor<Vec<u8>>>) -> Seq<(Seq<char>, Seq<u8>)>;

/// Whether entry `i` of an opened archive decompresses without error.
pub uninterp spec fn entry_readable(a: zip::ZipArchive<Cursor<Vec<u8>>>, i: int) -> bool;

/// Open a zip archive over in-memory bytes.
///
/// Relies on `zip::ZipArchive::new` over a `std::io::Cursor`: it reads the
/// archive's central directory from the buffer and fails exactly on a
/// malformed one — no other input is involved, so success, the entry list
/// and each entry's readability are functions of the bytes.
#[verifier::external_body]
pub fn open_archive(bytes: Vec<u8>) -> (r: Result<zip::ZipArchive<Cursor<Vec<u8>>>, ArchiveError>)
    ensures
        r is Ok <==> zip_parses(bytes@),
        match r {
            Ok(a) => zip_entries(a) == zip_entries_of(bytes@) && ((forall|i: int|
                0 <= i < zip_entries(a).len() ==> #[trigger] entry_readable(a, i))
                <==> zip_reads_fully(bytes@)),
            Err(e) => e is OpenFailed,
        },
{
    match zip::ZipArchive::new(Cursor::new(bytes)) {
        Ok(a) => Ok(a),
        Err(e) => Err(ArchiveError::OpenFailed(e.to_string())),
    }
}

/// The number of entries in the archive.
///
/// Relies on `zip::ZipArchive::len`: the number of files contained in the
/// zip, which indexes the archive's entry list.
#[verifier::external_body]
pub fn archive_len(a: &zip::ZipArchive<Cursor<Vec<u8>>>) -> (n: usize)
    ensures
        n == zip_entries(*a).len(),
{
    a.len()
}

/// Read entry `i`: its stored name and its decompressed bytes.
///
/// Relies on `zip::ZipArchive::by_index`, `zip::read::ZipFile::name` and
/// `std::io::Read::read_to_end`: entry `i` is returned with its stored name
/// (directory entries keep their trailing slash) and its full content, and
/// it fails exactly when the entry does not decode from the in-memory
/// buffer. Reading moves the cursor but touches neither the parsed entry
/// list nor the buffer, so both names are preserved.
#[verifier::external_body]
pub fn read_entry(a: &mut zip::ZipArchive<Cursor<Vec<u8>>>, i: usize) -> (r: Result<
    (String, Vec<u8>),
    ArchiveError,
>)
    requires
        i < zip_entries(*old(a)).len(),
    ensures
        zip_entries(*final(a)) == zip_entries(*old(a)),
        forall|j: int| #[trigger] entry_readable(*final(a), j) == entry_readable(*old(a), j),
        r is Ok <==> entry_readable(*old(a), i as int),
        match r {
            Ok(e) => e.0@ == zip_entries(*old(a))[i as int].0 && e.1@ == zip_entries(*old(a))[
                i as int
            ].1,
            Err(e) => e is ReadFailed,
        },
{
    match a.by_index(i) {
        Ok(mut f) => {
            let name = f.name().to_string();
            let mut data = Vec::new();
            match std::io::Read::read_to_end(&mut f, &mut data) {
                Ok(_) => Ok((name, data)),
                Err(e) => Err(ArchiveError::ReadFailed(e.to_string())),
            }
        },
        Err(e) => Err(ArchiveError::ReadFailed(e.to_string())),
    }
}

} // verus!
