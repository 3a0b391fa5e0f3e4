//! Packing EPUB files into a zip archive with the `zip` crate, in memory.
use vstd::prelude::*;

use std::io::Cursor;
use zip::ZipWriter;

use crate::error::{error_with, Error, ErrorKind};
use crate::model::EpubFile;

verus! {

/// A zip archive being written into memory by `zip::ZipWriter` over a `Cursor<Vec<u8>>`.
/// Its contents are described by [`zip_entries`].
#[verifier::external_body]
pub struct ZipBuffer {
    writer: ZipWriter<Cursor<Vec<u8>>>,
}

/// An archive entry as written: its name, whether it is stored uncompressed, and the
/// chunks of bytes written to it, in order.
pub type EntryV = (Seq<char>, bool, Seq<Seq<u8>>);

/// The entries an in-memory archive writer holds, in the order they were started.
pub uninterp spec fn zip_entries(z: ZipBuffer) -> Seq<EntryV>;

/// Whether an in-memory archive writer has an entry open for writing: set by a
/// successful `start_file` and kept by successful writes.
pub uninterp spec fn zip_writing(z: ZipBuffer) -> bool;

/// The bytes of the finished archive whose entries are `entries`.
pub uninterp spec fn zip_archive(entries: Seq<EntryV>) -> Seq<u8>;

/// The most bytes one entry may hold here: below the 4 GiB (`u32::MAX`) that an entry
/// without the zip64 option may hold, written or compressed, with room for the few bytes
/// per block that deflate adds to data it cannot shrink.
pub open spec fn entry_limit() -> nat {
    4_000_000_000
}

/// How many bytes the chunks hold together.
pub open spec fn chunks_size(chunks: Seq<Seq<u8>>) -> nat
    decreases chunks.len(),
{
    if chunks.len() == 0 {
        0
    } else {
        chunks_size(chunks.drop_last()) + chunks.last().len()
    }
}

/// Whether no entry holds more than [`entry_limit`] bytes.
pub open spec fn sizes_fit(entries: Seq<EntryV>) -> bool {
    forall|i: int| 0 <= i < entries.len() ==> chunks_size(#[trigger] entries[i].2) <= entry_limit()
}

/// Whether some entry is named `name`.
pub open spec fn name_taken(entries: Seq<EntryV>, name: Seq<char>) -> bool {
    exists|i: int| 0 <= i < entries.len() && #[trigger] entries[i].0 == name
}

/// Whether `name` fits the 16-bit name length of a zip entry header, in UTF-8 bytes.
pub open spec fn name_fits(name: Seq<char>) -> bool {
    vstd::utf8::encode_utf8(name).len() <= 65535
}

/// `ZipWriter::new` over an empty in-memory buffer: a writer with no entries.
#[verifier::external_body]
fn zip_new() -> (w: ZipBuffer)
    ensures
        zip_entries(w) == Seq::<EntryV>::empty(),
        !zip_writing(w),
{
    ZipBuffer { writer: ZipWriter::new(Cursor::new(Vec::new())) }
}

/// `ZipWriter::start_file` with default options, the compression method set to
/// `Stored` when `stored` holds. On success a new, empty entry follows the others. It
/// succeeds when no entry has the name yet and no entry holds more than
/// [`entry_limit`] bytes (closing the previous entry checks its size); it panics on a
/// name longer than 65535 UTF-8 bytes, which `requires` leaves out. On success the new
/// entry is open for writing. When it fails the contract says nothing of the writer (it
/// may already have closed the previous entry), and the message is the error's text.
#[verifier::external_body]
fn zip_start_file(w: &mut ZipBuffer, name: &str, stored: bool) -> (r: Result<(), String>)
    requires
        name_fits(name@),
    ensures
        !name_taken(zip_entries(*old(w)), name@) && sizes_fit(zip_entries(*old(w))) ==> r is Ok,
        r is Ok ==> zip_entries(*final(w)) == zip_entries(*old(w)).push(
            (name@, stored, Seq::<Seq<u8>>::empty()),
        ) && zip_writing(*final(w)),
{
    let options = match stored {
        true => zip::write::SimpleFileOptions::default()
            .compression_method(zip::CompressionMethod::Stored),
        false => zip::write::SimpleFileOptions::default(),
    };
    w.writer.start_file(name, options).map_err(|e| e.to_string())
}

/// `Write::write_all` on the writer. Writing nothing succeeds and changes nothing;
/// otherwise, on success, `bytes` is one more chunk of the latest entry, which stays
/// open. Writing fails when no entry is open (none was started, or the latest start
/// failed), or when the latest entry would pass 4 GiB; it succeeds when an entry is
/// open and stays within [`entry_limit`] bytes. When it fails the contract says nothing
/// of the writer, and the message is the error's text.
#[verifier::external_body]
fn zip_write_all(w: &mut ZipBuffer, bytes: &[u8]) -> (r: Result<(), String>)
    ensures
        bytes@.len() == 0 ==> r is Ok,
        zip_writing(*old(w)) && zip_entries(*old(w)).len() > 0 && chunks_size(
            zip_entries(*old(w)).last().2,
        ) + bytes@.len() <= entry_limit() ==> r is Ok,
        r is Ok ==> zip_writing(*final(w)) == zip_writing(*old(w)),
        r is Ok && bytes@.len() == 0 ==> zip_entries(*final(w)) == zip_entries(*old(w)),
        r is Ok && bytes@.len() > 0 ==> zip_entries(*old(w)).len() > 0 && zip_entries(*final(w))
            == zip_entries(*old(w)).update(
            zip_entries(*old(w)).len() - 1,
            (
                zip_entries(*old(w)).last().0,
                zip_entries(*old(w)).last().1,
                zip_entries(*old(w)).last().2.push(bytes@),
            ),
        ),
{
    std::io::Write::write_all(&mut w.writer, bytes).map_err(|e| e.to_string())
}

/// `ZipWriter::finish`, then the buffer taken out of the cursor: the archive of the
/// entries written. Writing to memory does not fail; closing the latest entry checks its
/// size, so it succeeds when no entry holds more than [`entry_limit`] bytes. When it
/// fails the message is the error's text.
#[verifier::external_body]
fn zip_finish(w: ZipBuffer) -> (r: Result<Vec<u8>, String>)
    ensures
        sizes_fit(zip_entries(w)) ==> r is Ok,
        r matches Ok(b) ==> b@ == zip_archive(zip_entries(w)),
{
    w.writer.finish().map(|c| c.into_inner()).map_err(|e| e.to_string())
}

/// The abstract form of a list of archive files: path and bytes.
pub open spec fn file_views(files: Seq<EpubFile>) -> Seq<(Seq<char>, Seq<u8>)> {
    files.map_values(|f: EpubFile| (f.path@, f.bytes@))
}

/// The chunks that writing `bytes` at once gives: one, or none for no bytes.
pub open spec fn chunks_of(bytes: Seq<u8>) -> Seq<Seq<u8>> {
    if bytes.len() == 0 {
        Seq::empty()
    } else {
        seq![bytes]
    }
}

/// The entries a list of files (path, bytes) becomes: the first stored uncompressed, the
/// rest compressed, each written at once.
pub open spec fn entries_of(files: Seq<(Seq<char>, Seq<u8>)>) -> Seq<EntryV> {
    files.map(|i: int, f: (Seq<char>, Seq<u8>)| (f.0, i == 0, chunks_of(f.1)))
}

/// The entries a list of EPUB files becomes.
pub open spec fn epub_entries(files: Seq<EpubFile>) -> Seq<EntryV> {
    entries_of(file_views(files))
}

/// Why packing failed: a file could not be written, or the archive could not be
/// finished; each with the `zip` crate's message.
#[derive(Debug)]
pub enum PackError {
    Write(String),
    Finish(String),
}

/// Whether every path fits a zip entry name.
pub open spec fn paths_fit(files: Seq<(Seq<char>, Seq<u8>)>) -> bool {
    forall|i: int| 0 <= i < files.len() ==> name_fits(#[trigger] files[i].0)
}

/// Whether no two files share a path.
pub open spec fn distinct_paths(files: Seq<(Seq<char>, Seq<u8>)>) -> bool {
    forall|i: int, j: int| 0 <= i < j < files.len() ==> #[trigger] files[i].0 != #[trigger] files[j].0
}

/// Whether no file holds more than [`entry_limit`] bytes.
pub open spec fn contents_fit(files: Seq<(Seq<char>, Seq<u8>)>) -> bool {
    forall|i: int| 0 <= i < files.len() ==> (#[trigger] files[i].1).len() <= entry_limit()
}

/// Whether every path of `files` fits a zip entry name (at most 65535 UTF-8 bytes);
/// the `zip` crate panics on a longer one.
pub fn fits_in_zip(files: &Vec<EpubFile>) -> (b: bool)
    ensures
        b == paths_fit(file_views(files@)),
{
    let ghost fv = file_views(files@);
    let mut i: usize = 0;
    while i < files.len()
        invariant
            i <= files.len(),
            fv == file_views(files@),
            forall|k: int| 0 <= k < i ==> name_fits(#[trigger] fv[k].0),
        decreases files.len() - i,
    {
        let bytes = crate::text::utf8_of(files[i].path.as_str());
        if bytes.len() > 65535 {
            assert(!name_fits(fv[i as int].0));
            return false;
        }
        i += 1;
    }
    true
}

/// Packs `files` into a zip archive, in order; the first file (the `mimetype`) is stored
/// uncompressed as EPUB requires, the others are compressed. It succeeds when no two
/// files share a path and none holds more than [`entry_limit`] bytes.
pub fn pack_files(files: &Vec<EpubFile>) -> (res: Result<Vec<u8>, PackError>)
    requires
        paths_fit(file_views(files@)),
    ensures
        res matches Ok(b) ==> b@ == zip_archive(epub_entries(files@)),
        distinct_paths(file_views(files@)) && contents_fit(file_views(files@)) ==> res is Ok,
{
    let ghost fv = file_views(files@);
    let ghost good = distinct_paths(fv) && contents_fit(fv);
    let mut w = zip_new();
    let mut i: usize = 0;
    while i < files.len()
        invariant
            i <= files.len(),
            fv == file_views(files@),
            good == (distinct_paths(fv) && contents_fit(fv)),
            paths_fit(fv),
            zip_entries(w) == epub_entries(files@).take(i as int),
            good ==> sizes_fit(zip_entries(w)),
        decreases files.len() - i,
    {
        let f = &files[i];
        let ghost before = zip_entries(w);
        assert(name_fits(fv[i as int].0));
        proof {
            if good {
                assert forall|k: int| 0 <= k < before.len() implies #[trigger] before[k].0 != fv[i as int].0 by {
                    assert(before[k].0 == fv[k].0);
                }
            }
        }
        match zip_start_file(&mut w, f.path.as_str(), i == 0) {
            Ok(()) => {},
            Err(m) => {
                return Err(PackError::Write(m));
            },
        }
        let ghost started = zip_entries(w);
        assert(started.len() > 0 && chunks_size(started.last().2) == 0);
        assert(f.bytes@ == fv[i as int].1);
        assert(good ==> fv[i as int].1.len() <= entry_limit());
        match zip_write_all(&mut w, f.bytes.as_slice()) {
            Ok(()) => {},
            Err(m) => {
                return Err(PackError::Write(m));
            },
        }
        assert(zip_entries(w) =~= epub_entries(files@).take(i + 1));
        proof {
            if good {
                let b = fv[i as int].1;
                assert(chunks_of(b).len() == 0 || chunks_of(b).drop_last() =~= Seq::<Seq<u8>>::empty());
                assert(chunks_size(chunks_of(b)) == b.len());
                assert forall|k: int| 0 <= k < zip_entries(w).len() implies chunks_size(
                    #[trigger] zip_entries(w)[k].2,
                ) <= entry_limit() by {
                    if k < i {
                        assert(zip_entries(w)[k] == before[k]);
                    }
                }
            }
        }
        i += 1;
    }
    assert(epub_entries(files@).take(i as int) =~= epub_entries(files@));
    match zip_finish(w) {
        Ok(b) => Ok(b),
        Err(m) => Err(PackError::Finish(m)),
    }
}

/// Packs `files` into an EPUB archive (see [`pack_files`]). A file that cannot be
/// written gives an `Encode` error "zip 写入失败: …", an archive that cannot be finished
/// "zip 收尾失败: …", each followed by the `zip` crate's message.
pub fn pack_epub(files: &Vec<EpubFile>) -> (res: Result<Vec<u8>, Error>)
    requires
        paths_fit(file_views(files@)),
    ensures
        res matches Ok(b) ==> b@ == zip_archive(epub_entries(files@)),
        distinct_paths(file_views(files@)) && contents_fit(file_views(files@)) ==> res is Ok,
        res matches Err(e) ==> e.kind == ErrorKind::Encode && exists|m: Seq<char>|
            #![trigger "zip 写入失败: "@ + m]
            #![trigger "zip 收尾失败: "@ + m]
            e.message@ == "zip 写入失败: "@ + m || e.message@ == "zip 收尾失败: "@ + m,
{
    match pack_files(files) {
        Ok(b) => Ok(b),
        Err(PackError::Write(m)) => Err(error_with(ErrorKind::Encode, "zip 写入失败: ", m.as_str())),
        Err(PackError::Finish(m)) => Err(error_with(ErrorKind::Encode, "zip 收尾失败: ", m.as_str())),
    }
}

} // verus!
