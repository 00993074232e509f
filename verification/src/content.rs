//! The contents of a syntax-assistant container: the table of contents,
//! unpacked from the `PackBlock` entity, and the help pages, read from the
//! zip archive of the `FileStorage` entity.
use vstd::prelude::*;
use vstd::utf8::{decode_utf8, valid_utf8};

use std::io::Cursor;
use zip::result::ZipError;
use zip::ZipArchive;

use crate::container::{body_at, entities_of, entity_address, headers_in_range, HbkContainer};
use crate::hbk_models::{copy_pages, pages_model, HbkError, Page, PageModel, Toc};
use crate::text::{chars_of, concat_strs, copy_range, push_str_chars, string_from_chars};
use crate::toc::{chunks_of, parse_toc, tokens_of, toc_model};

verus! {

#[verifier::external_type_specification]
#[verifier::external_body]
#[verifier::reject_recursive_types(T)]
pub struct ExCursor<T>(Cursor<T>);

#[verifier::external_type_specification]
#[verifier::external_body]
#[verifier::reject_recursive_types(R)]
pub struct ExZipArchive<R>(ZipArchive<R>);

#[verifier::external_type_specification]
#[verifier::external_body]
pub struct ExZipError(ZipError);

// ---------------------------------------------------------------------------
// The table of contents
// ---------------------------------------------------------------------------

/// What reading the first entry of a zip stream gives.
pub enum Unpacked {
    /// The bytes of the first entry.
    Entry(Seq<u8>),
    /// The stream starts with the central directory: no entry.
    NoEntry,
    /// The stream is not a zip stream.
    NotZip,
    /// The entry is there but its data cannot be read (inflated).
    Unreadable,
}

/// What `zip::read::read_zipfile_from_stream` followed by reading the entry
/// gives for a byte stream.
pub uninterp spec fn unpack_first(data: Seq<u8>) -> Unpacked;

/// Why the first entry of a stream could not be had.
pub enum UnpackError {
    Zip(String),
    Read(String),
}

/// Calls `zip::read::read_zipfile_from_stream` on the bytes and reads the
/// entry it finds to its end. Trusted: the outcome is `unpack_first` of the
/// bytes (zip's error texts are carried along).
#[verifier::external_body]
fn unpack_first_entry(data: &[u8]) -> (r: Result<Option<Vec<u8>>, UnpackError>)
    ensures
        match unpack_first(data@) {
            Unpacked::Entry(b) => r matches Ok(Some(v)) && v@ == b,
            Unpacked::NoEntry => r matches Ok(None),
            Unpacked::NotZip => r matches Err(UnpackError::Zip(_)),
            Unpacked::Unreadable => r matches Err(UnpackError::Read(_)),
        },
{
    let mut cursor = Cursor::new(data);
    let r = match zip::read::read_zipfile_from_stream(&mut cursor) {
        Err(e) => Err(UnpackError::Zip(format!("{e}"))),
        Ok(None) => Ok(None),
        Ok(Some(mut entry)) => {
            let mut buf = Vec::new();
            match std::io::Read::read_to_end(&mut entry, &mut buf) {
                Ok(_) => Ok(Some(buf)),
                Err(e) => Err(UnpackError::Read(format!("{e}"))),
            }
        },
    };
    r
}

/// Calls `String::from_utf8`. Trusted: it succeeds exactly on valid UTF-8 and
/// then gives the decoded characters; the error text is std's.
#[verifier::external_body]
fn string_from_utf8(bytes: Vec<u8>) -> (r: Result<String, String>)
    ensures
        match r {
            Ok(s) => valid_utf8(bytes@) && s@ == decode_utf8(bytes@),
            Err(_) => !valid_utf8(bytes@),
        },
{
    match String::from_utf8(bytes) {
        Ok(s) => Ok(s),
        Err(e) => Err(format!("{e}")),
    }
}

fn message(parts: &[&str]) -> (r: String)
    ensures
        r@ == concat_strs(parts@),
{
    let mut buf: Vec<char> = Vec::new();
    let mut i: usize = 0;
    while i < parts.len()
        invariant
            i <= parts@.len(),
            buf@ == concat_strs(parts@.take(i as int)),
        decreases parts.len() - i,
    {
        push_str_chars(&mut buf, parts[i]);
        proof {
            assert(parts@.take(i + 1).drop_last() =~= parts@.take(i as int));
        }
        i = i + 1;
    }
    assert(parts@.take(parts@.len() as int) =~= parts@);
    string_from_chars(&buf)
}

/// The table-of-contents text packed in `data`: the first entry of a zip
/// stream, in UTF-8.
pub fn inflate_pack_block(data: &[u8]) -> (r: Result<String, HbkError>)
    ensures
        match unpack_first(data@) {
            Unpacked::Entry(b) => if valid_utf8(b) {
                r matches Ok(s) && s@ == decode_utf8(b)
            } else {
                r matches Err(e) && e is Inflate
            },
            Unpacked::NoEntry => r matches Err(e) && e is Inflate,
            Unpacked::NotZip => r matches Err(e) && e is Inflate,
            Unpacked::Unreadable => r matches Err(e) && e is Io,
        },
{
    match unpack_first_entry(data) {
        Err(UnpackError::Zip(msg)) => Err(
            HbkError::Inflate(message(&["PackBlock не zip-stream: ", msg.as_str()])),
        ),
        Err(UnpackError::Read(msg)) => Err(HbkError::Io(msg)),
        Ok(None) => Err(HbkError::Inflate(message(&["PackBlock не содержит entry"]))),
        Ok(Some(bytes)) => match string_from_utf8(bytes) {
            Ok(s) => Ok(s),
            Err(msg) => Err(HbkError::Inflate(message(&["PackBlock не UTF-8: ", msg.as_str()]))),
        },
    }
}

// ---------------------------------------------------------------------------
// The page archive
// ---------------------------------------------------------------------------

/// The files of an archive: each name on which `by_name` succeeds, with the
/// bytes read from it (`None` when reading them fails).
pub uninterp spec fn archive_files(a: ZipArchive<Cursor<Vec<u8>>>) -> Map<Seq<char>, Option<Seq<u8>>>;

/// What `ZipArchive::new` makes of the bytes: the files of the archive, or
/// `None` when they are not a zip archive.
pub uninterp spec fn zip_archive_files(bytes: Seq<u8>) -> Option<Map<Seq<char>, Option<Seq<u8>>>>;

/// Calls `zip::ZipArchive::new` on the bytes. Trusted: it succeeds exactly
/// when `zip_archive_files` of the bytes is a map, and the archive has those
/// files.
#[verifier::external_body]
fn open_archive(bytes: Vec<u8>) -> (r: Result<ZipArchive<Cursor<Vec<u8>>>, ZipError>)
    ensures
        match zip_archive_files(bytes@) {
            Some(m) => r matches Ok(a) && archive_files(a) == m,
            None => r is Err,
        },
{
    ZipArchive::new(Cursor::new(bytes))
}

/// Formats a `zip::result::ZipError` with its `Display`.
#[verifier::external_body]
fn zip_error_text(e: &ZipError) -> (r: String) {
    format!("{e}")
}

/// Calls `ZipArchive::by_name` and reads the file it finds to its end.
/// Trusted: the outer error comes exactly when `by_name` refuses the name
/// (no such file, or one it cannot open, such as an encrypted one), the inner
/// one when its bytes cannot be read; the files stay as they were.
#[verifier::external_body]
fn read_archive_file(a: &mut ZipArchive<Cursor<Vec<u8>>>, name: &str) -> (r: Result<
    Result<Vec<u8>, String>,
    ZipError,
>)
    ensures
        archive_files(*final(a)) == archive_files(*old(a)),
        match r {
            Err(_) => !archive_files(*old(a)).contains_key(name@),
            Ok(Err(_)) => archive_files(*old(a)).contains_key(name@) && archive_files(
                *old(a),
            )[name@] is None,
            Ok(Ok(v)) => archive_files(*old(a)).contains_key(name@) && archive_files(
                *old(a),
            )[name@] == Some(v@),
        },
{
    match a.by_name(name) {
        Err(e) => Err(e),
        Ok(mut entry) => {
            let mut buf = Vec::new();
            match std::io::Read::read_to_end(&mut entry, &mut buf) {
                Ok(_) => Ok(Ok(buf)),
                Err(e) => Ok(Err(format!("{e}"))),
            }
        },
    }
}

/// Opens the page archive.
pub fn open_file_storage(bytes: Vec<u8>) -> (r: Result<ZipArchive<Cursor<Vec<u8>>>, HbkError>)
    ensures
        match zip_archive_files(bytes@) {
            Some(m) => r matches Ok(a) && archive_files(a) == m,
            None => r matches Err(e) && e is Zip,
        },
{
    match open_archive(bytes) {
        Ok(a) => Ok(a),
        Err(e) => Err(HbkError::Zip(zip_error_text(&e))),
    }
}

/// A path without one leading slash.
pub open spec fn entry_name(path: Seq<char>) -> Seq<char> {
    if path.len() > 0 && path[0] == '/' {
        path.drop_first()
    } else {
        path
    }
}

fn strip_slash(path: &str) -> (r: String)
    ensures
        r@ == entry_name(path@),
{
    let v = chars_of(path);
    if v.len() > 0 && v[0] == '/' {
        let t = copy_range(v.as_slice(), 1, v.len());
        assert(t@ =~= path@.drop_first());
        string_from_chars(&t)
    } else {
        string_from_chars(&v)
    }
}

/// The contents of a container.
pub struct HbkContent {
    pub toc: Toc,
    file_storage: ZipArchive<Cursor<Vec<u8>>>,
}

/// The name of the entity that holds the table of contents.
pub open spec fn pack_block_name() -> Seq<char> {
    seq!['P', 'a', 'c', 'k', 'B', 'l', 'o', 'c', 'k']
}

/// The name of the entity that holds the page archive.
pub open spec fn file_storage_name() -> Seq<char> {
    seq!['F', 'i', 'l', 'e', 'S', 't', 'o', 'r', 'a', 'g', 'e']
}

/// What reading the contents of a container with entities `es` and bytes
/// `buf` gives: each step's failure with its error, or the table of contents
/// and the page archive.
pub open spec fn read_outcome(
    es: Seq<(Seq<char>, u32)>,
    buf: Seq<u8>,
    r: Result<HbkContent, HbkError>,
) -> bool {
    match entity_address(es, pack_block_name()) {
        None => r matches Err(e) && e is EntityNotFound,
        Some(a) => match body_at(buf, a as int) {
            None => r matches Err(e) && e is BadFormat,
            Some(pack) => match unpack_first(pack) {
                Unpacked::Entry(b) => if !valid_utf8(b) {
                    r matches Err(e) && e is Inflate
                } else {
                    match chunks_of(tokens_of(decode_utf8(b))) {
                        None => r matches Err(e) && e is TocParse,
                        Some(cs) => match entity_address(es, file_storage_name()) {
                            None => r matches Err(e) && e is EntityNotFound,
                            Some(fa) => match body_at(buf, fa as int) {
                                None => r matches Err(e) && e is BadFormat,
                                Some(fs) => match zip_archive_files(fs) {
                                    None => r matches Err(e) && e is Zip,
                                    Some(m) => r matches Ok(hc) && hc.toc_pages() == toc_model(cs)
                                        && hc.files() == m,
                                },
                            },
                        },
                    }
                },
                Unpacked::Unreadable => r matches Err(e) && e is Io,
                _ => r matches Err(e) && e is Inflate,
            },
        },
    }
}

impl HbkContent {
    /// The files of the page archive.
    pub closed spec fn files(&self) -> Map<Seq<char>, Option<Seq<u8>>> {
        archive_files(self.file_storage)
    }

    /// The top-level pages of the table of contents.
    pub closed spec fn toc_pages(&self) -> Seq<PageModel> {
        pages_model(self.toc.pages@)
    }

    /// A copy of the top-level pages of the table of contents.
    pub fn copy_toc_pages(&self) -> (r: Vec<Page>)
        ensures
            pages_model(r@) == self.toc_pages(),
    {
        copy_pages(&self.toc.pages)
    }

    /// Reads the contents of a container: the table of contents of its
    /// `PackBlock`, and the page archive of its `FileStorage`.
    pub fn from_container(c: &HbkContainer) -> (r: Result<HbkContent, HbkError>)
        requires
            c.buffer@.len() <= isize::MAX,
        ensures
            read_outcome(c.entities.deep_view(), c.buffer@, r),
    {
        proof {
            reveal_strlit("PackBlock");
            reveal_strlit("FileStorage");
            assert("PackBlock"@ =~= pack_block_name());
            assert("FileStorage"@ =~= file_storage_name());
        }
        let pack_block = c.get_entity("PackBlock")?;
        let toc_text = inflate_pack_block(pack_block.as_slice())?;
        let toc = parse_toc(toc_text.as_str())?;
        let storage = c.get_entity("FileStorage")?;
        let file_storage = open_file_storage(storage)?;
        Ok(HbkContent { toc, file_storage })
    }

    /// Reads a container from its bytes, then its contents.
    pub fn from_bytes(buffer: Vec<u8>) -> (r: Result<HbkContent, HbkError>)
        requires
            buffer@.len() <= isize::MAX,
            headers_in_range(buffer@),
        ensures
            match entities_of(buffer@) {
                None => r matches Err(e) && e is BadFormat,
                Some(es) => read_outcome(es, buffer@, r),
            },
    {
        let c = HbkContainer::from_bytes(buffer)?;
        HbkContent::from_container(&c)
    }

    /// The bytes of the page at `html_path`, read from the page archive (one
    /// leading slash of the path is dropped).
    pub fn get_entry(&mut self, html_path: &str) -> (r: Result<Vec<u8>, HbkError>)
        ensures
            final(self).files() == old(self).files(),
            html_path@.len() == 0 ==> (r matches Err(e) && e is HtmlEntryNotFound),
            html_path@.len() > 0 ==> {
                let name = entry_name(html_path@);
                &&& !old(self).files().contains_key(name) ==> (r matches Err(e)
                    && e matches HbkError::HtmlEntryNotFound(p) && p@ == html_path@)
                &&& old(self).files().contains_key(name) && old(self).files()[name] is None ==> (
                r matches Err(e) && e is Io)
                &&& old(self).files().contains_key(name) && old(self).files()[name] is Some ==> (
                r matches Ok(v) && Some(v@) == old(self).files()[name])
            },
    {
        if html_path.is_empty() {
            return Err(HbkError::HtmlEntryNotFound(message(&["пустое имя файла"])));
        }
        let name = strip_slash(html_path);
        match read_archive_file(&mut self.file_storage, name.as_str()) {
            Err(_) => Err(HbkError::HtmlEntryNotFound(html_path.to_string())),
            Ok(Err(msg)) => Err(HbkError::Io(msg)),
            Ok(Ok(v)) => Ok(v),
        }
    }

    /// The page at `html_path` as UTF-8 text.
    pub fn get_entry_text(&mut self, html_path: &str) -> (r: Result<String, HbkError>)
        ensures
            final(self).files() == old(self).files(),
            html_path@.len() == 0 ==> (r matches Err(e) && e is HtmlEntryNotFound),
            html_path@.len() > 0 ==> {
                let name = entry_name(html_path@);
                &&& !old(self).files().contains_key(name) ==> (r matches Err(e)
                    && e is HtmlEntryNotFound)
                &&& old(self).files().contains_key(name) && old(self).files()[name] is None ==> (
                r matches Err(e) && e is Io)
                &&& old(self).files().contains_key(name) && old(self).files()[name] is Some ==> {
                    let b = old(self).files()[name]->0;
                    if valid_utf8(b) {
                        r matches Ok(s) && s@ == decode_utf8(b)
                    } else {
                        r matches Err(e) && e is BadFormat
                    }
                }
            },
    {
        let bytes = self.get_entry(html_path)?;
        match string_from_utf8(bytes) {
            Ok(s) => Ok(s),
            Err(msg) => Err(HbkError::BadFormat(message(&["страница ", html_path, ": не UTF-8 (", msg.as_str(), ")"]))),
        }
    }
}

} // verus!
