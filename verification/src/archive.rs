//! Picking the server binary out of a downloaded release archive.
use vstd::prelude::*;
use crate::strings::{chars_of, str_eq, string_from_chars};
use std::io::{Cursor, Read};
use zip::ZipArchive;

verus! {

/// What opening `archive` as a zip gives: its number of entries, or the text
/// of the error that refused it.
pub uninterp spec fn zip_entry_count(archive: Seq<u8>) -> Result<usize, Seq<char>>;

/// Opens `archive` as a zip and counts its entries.
///
/// Trusted: `zip::ZipArchive::new` over a cursor on the bytes, then `len`;
/// an error is handed back as its `Display` text. Both depend on the bytes
/// alone; the outcome is named `zip_entry_count`.
#[verifier::external_body]
fn zip_open(archive: &[u8]) -> (r: Result<usize, String>)
    ensures
        match r {
            Ok(n) => zip_entry_count(archive@) == Ok::<usize, Seq<char>>(n),
            Err(e) => zip_entry_count(archive@) == Err::<usize, Seq<char>>(e@),
        },
{
    match ZipArchive::new(Cursor::new(archive)) {
        Ok(a) => Ok(a.len()),
        Err(e) => Err(e.to_string()),
    }
}

/// The stored name of entry `index` of the zip `archive`, or the text of the
/// error met on the way to it.
pub uninterp spec fn zip_entry_name(archive: Seq<u8>, index: usize) -> Result<Seq<char>, Seq<char>>;

/// Reads the stored name of entry `index`.
///
/// Trusted: `zip::ZipArchive::new` over the bytes, `by_index(index)` and
/// `ZipFile::name`; errors come back as their `Display` text. The archive is
/// opened anew for each call, so the outcome depends on the bytes and the
/// index alone and is named `zip_entry_name`.
#[verifier::external_body]
fn read_entry_name(archive: &[u8], index: usize) -> (r: Result<String, String>)
    ensures
        match r {
            Ok(s) => zip_entry_name(archive@, index) == Ok::<Seq<char>, Seq<char>>(s@),
            Err(e) => zip_entry_name(archive@, index) == Err::<Seq<char>, Seq<char>>(e@),
        },
{
    let mut a = match ZipArchive::new(Cursor::new(archive)) {
        Ok(a) => a,
        Err(e) => return Err(e.to_string()),
    };
    let r = match a.by_index(index) {
        Ok(entry) => Ok(entry.name().to_string()),
        Err(e) => Err(e.to_string()),
    };
    r
}

/// The unpacked contents of entry `index` of the zip `archive`, or the text
/// of the error met on the way to them.
pub uninterp spec fn zip_entry_data(archive: Seq<u8>, index: usize) -> Result<Seq<u8>, Seq<char>>;

/// Unpacks entry `index`.
///
/// Trusted: `zip::ZipArchive::new` over the bytes, `by_index(index)` and
/// `Read::read_to_end` on the entry, which also checks its CRC; errors come
/// back as their `Display` text. The outcome depends on the bytes and the
/// index alone and is named `zip_entry_data`.
#[verifier::external_body]
fn read_entry_data(archive: &[u8], index: usize) -> (r: Result<Vec<u8>, String>)
    ensures
        match r {
            Ok(v) => zip_entry_data(archive@, index) == Ok::<Seq<u8>, Seq<char>>(v@),
            Err(e) => zip_entry_data(archive@, index) == Err::<Seq<u8>, Seq<char>>(e@),
        },
{
    let mut a = match ZipArchive::new(Cursor::new(archive)) {
        Ok(a) => a,
        Err(e) => return Err(e.to_string()),
    };
    let mut entry = match a.by_index(index) {
        Ok(entry) => entry,
        Err(e) => return Err(e.to_string()),
    };
    let mut buf = Vec::new();
    match entry.read_to_end(&mut buf) {
        Ok(_) => Ok(buf),
        Err(e) => Err(e.to_string()),
    }
}

/// The final component of the path `path`, when it has one that is a normal
/// name (none for a path ending in `..`, for `/` or for an empty path).
pub uninterp spec fn path_file_name(path: Seq<char>) -> Option<Seq<char>>;

/// The file name of an entry's path.
///
/// Trusted: `std::path::Path::file_name`, whose result is turned back into
/// text with `OsStr::to_str` (always possible for a path made from a `str`).
/// Its result depends on the path alone, with the path rules of the target
/// platform; it is named `path_file_name`.
#[verifier::external_body]
fn file_name_of(path: &str) -> (r: Option<String>)
    ensures
        match r {
            Some(f) => path_file_name(path@) == Some(f@),
            None => path_file_name(path@) is None,
        },
{
    match std::path::Path::new(path).file_name() {
        Some(n) => match n.to_str() {
            Some(t) => Some(t.to_string()),
            None => None,
        },
        None => None,
    }
}

/// The error text when no entry of the archive is called `name`.
pub open spec fn not_found_text(name: Seq<char>) -> Seq<char> {
    seq!['\''] + name + "' not found in zip"@
}

/// The outcome of looking through entries `i..n` of `archive` for the first
/// whose file name is `name`: its unpacked contents, the first error met on
/// the way, or the not-found error.
pub open spec fn entry_from(archive: Seq<u8>, name: Seq<char>, i: int, n: int) -> Result<
    Seq<u8>,
    Seq<char>,
>
    decreases n - i,
{
    if i < 0 || i >= n {
        Err(not_found_text(name))
    } else {
        match zip_entry_name(archive, i as usize) {
            Err(e) => Err(e),
            Ok(entry) => if path_file_name(entry) == Some(name) {
                zip_entry_data(archive, i as usize)
            } else {
                entry_from(archive, name, i + 1, n)
            },
        }
    }
}

/// The outcome of extracting the entry whose file name is `name` from the zip
/// `archive`: the open error, or the search through all its entries.
pub open spec fn extracted(archive: Seq<u8>, name: Seq<char>) -> Result<Seq<u8>, Seq<char>> {
    match zip_entry_count(archive) {
        Err(e) => Err(e),
        Ok(n) => entry_from(archive, name, 0, n as int),
    }
}

/// Appends the characters of `s` to `v`.
fn push_chars(v: &mut Vec<char>, s: &Vec<char>)
    ensures
        final(v)@ == old(v)@ + s@,
{
    let mut i: usize = 0;
    while i < s.len()
        invariant
            i <= s@.len(),
            v@ == old(v)@ + s@.subrange(0, i as int),
        decreases s@.len() - i,
    {
        proof {
            assert(s@.subrange(0, i as int + 1) =~= s@.subrange(0, i as int).push(s@[i as int]));
        }
        v.push(s[i]);
        i = i + 1;
    }
    proof {
        assert(s@.subrange(0, s@.len() as int) =~= s@);
    }
}

/// The message for an archive without an entry called `name`.
fn not_found_message(name: &str) -> (r: String)
    ensures
        r@ == not_found_text(name@),
{
    let mut v: Vec<char> = Vec::new();
    v.push('\'');
    push_chars(&mut v, &chars_of(name));
    push_chars(&mut v, &chars_of("' not found in zip"));
    proof {
        assert(v@ =~= not_found_text(name@));
    }
    string_from_chars(v.as_slice())
}

/// Extracts the contents of the first entry of the zip `zip` whose file name
/// (the last component of its path) is `name`. Errors are those of the zip
/// reader, as text, or `'name' not found in zip`.
pub fn extract_binary_from_zip(zip: &[u8], name: &str) -> (r: Result<Vec<u8>, String>)
    ensures
        match r {
            Ok(v) => extracted(zip@, name@) == Ok::<Seq<u8>, Seq<char>>(v@),
            Err(e) => extracted(zip@, name@) == Err::<Seq<u8>, Seq<char>>(e@),
        },
{
    let n = match zip_open(zip) {
        Ok(n) => n,
        Err(e) => return Err(e),
    };
    let mut i: usize = 0;
    while i < n
        invariant
            i <= n,
            zip_entry_count(zip@) == Ok::<usize, Seq<char>>(n),
            extracted(zip@, name@) == entry_from(zip@, name@, i as int, n as int),
        decreases n - i,
    {
        let entry = match read_entry_name(zip, i) {
            Ok(s) => s,
            Err(e) => return Err(e),
        };
        let wanted = match file_name_of(entry.as_str()) {
            Some(f) => str_eq(f.as_str(), name),
            None => false,
        };
        if wanted {
            return read_entry_data(zip, i);
        }
        i = i + 1;
    }
    Err(not_found_message(name))
}

} // verus!
