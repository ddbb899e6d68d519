//! Reading dictionary archives: a thin layer over the `zip` crate. An
//! opened archive is a collection of named entries; everything the library
//! claims about it is stated over `zip_names` and `zip_entry_data`.

use vstd::prelude::*;

verus! {

#[verifier::external_type_specification]
#[verifier::external_body]
#[verifier::reject_recursive_types(R)]
pub struct ExZipArchive<R>(zip::ZipArchive<R>);

#[verifier::external_type_specification]
#[verifier::external_body]
#[verifier::reject_recursive_types(T)]
pub struct ExCursor<T>(std::io::Cursor<T>);

/// The entry names of an archive, in central-directory order. A name
/// ending in `/` is a directory entry.
pub uninterp spec fn zip_names(z: zip::ZipArchive<std::io::Cursor<Vec<u8>>>) -> Seq<Seq<char>>;

/// The decompressed bytes of a named entry, if the archive has it and it
/// decompresses.
pub uninterp spec fn zip_entry_data(
    z: zip::ZipArchive<std::io::Cursor<Vec<u8>>>,
    name: Seq<char>,
) -> Option<Seq<u8>>;

/// Relies on `zip::ZipArchive::new`: opens an archive over its bytes;
/// none when the central directory is unreadable.
#[verifier::external_body]
pub fn open_zip(bytes: Vec<u8>) -> (r: Option<zip::ZipArchive<std::io::Cursor<Vec<u8>>>>) {
    zip::ZipArchive::new(std::io::Cursor::new(bytes)).ok()
}

/// Relies on `zip::ZipArchive::file_names`: every entry name, in
/// central-directory order.
#[verifier::external_body]
pub fn zip_file_names(z: &zip::ZipArchive<std::io::Cursor<Vec<u8>>>) -> (r: Vec<String>)
    ensures
        r.deep_view() == zip_names(*z),
{
    z.file_names().map(|n| n.to_string()).collect()
}

/// Relies on `zip::ZipArchive::by_name` and `Read::read_to_end`: the
/// decompressed bytes of one entry; reading moves the cursor but leaves
/// the archive's contents as they were.
#[verifier::external_body]
pub fn zip_read_entry(z: &mut zip::ZipArchive<std::io::Cursor<Vec<u8>>>, name: &str) -> (r: Option<
    Vec<u8>,
>)
    ensures
        zip_names(*final(z)) == zip_names(*old(z)),
        forall|n: Seq<char>| zip_entry_data(*final(z), n) == zip_entry_data(*old(z), n),
        match r {
            Some(d) => zip_entry_data(*old(z), name@) == Some(d@),
            None => zip_entry_data(*old(z), name@) is None,
        },
{
    match z.by_name(name) {
        Ok(mut f) => {
            let mut buf: Vec<u8> = Vec::new();
            match std::io::Read::read_to_end(&mut f, &mut buf) {
                Ok(_) => Some(buf),
                Err(_) => None,
            }
        },
        Err(_) => None,
    }
}

/// What a byte sequence decodes to as UTF-8, if it is valid.
pub uninterp spec fn utf8_of(b: Seq<u8>) -> Option<Seq<char>>;

/// Relies on `String::from_utf8`: the decoded text of valid UTF-8 bytes.
#[verifier::external_body]
pub fn bytes_to_utf8(b: Vec<u8>) -> (r: Option<String>)
    ensures
        match r {
            Some(s) => utf8_of(b@) == Some(s@),
            None => utf8_of(b@) is None,
        },
{
    String::from_utf8(b).ok()
}

} // verus!
