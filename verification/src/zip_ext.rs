//! Trusted boundary to the `zip` crate: the archive type, names for
//! what its operations compute from the archive's bytes, and thin
//! wrappers around the calls the inspection logic makes.
//!
//! The archive is always read from a cursor over bytes held in memory,
//! so everything an operation yields is a function of those bytes (and
//! of the entry index and password handed to it); the `uninterp`
//! functions below name those results.

use vstd::prelude::*;

verus! {

#[verifier::external_type_specification]
#[verifier::external_body]
#[verifier::reject_recursive_types(R)]
pub struct ExZipArchive<R>(zip::ZipArchive<R>);

#[verifier::external_type_specification]
#[verifier::external_body]
#[verifier::reject_recursive_types(T)]
pub struct ExCursor<T>(std::io::Cursor<T>);

/// What a failed access to one archive entry reports, mirroring the
/// zip crate's error cases one for one.
pub enum EntryFault {
    /// The archive uses a feature the reader does not support; the
    /// message says which.
    Unsupported(String),
    /// The bytes are not a valid archive; the message says why.
    Invalid(String),
    /// Reading the underlying bytes failed; the message is the I/O
    /// error's.
    Io(String),
    /// The entry index is out of range.
    NotFound,
    /// The reader treats the entry as one it could only decode with a
    /// key it was not given.
    BadPassword,
    /// Any error case the reader may add; the message is its display
    /// text.
    Other(String),
}

/// The spec-level image of an `EntryFault`.
pub enum EntryFaultModel {
    Unsupported(Seq<char>),
    Invalid(Seq<char>),
    Io(Seq<char>),
    NotFound,
    BadPassword,
    Other(Seq<char>),
}

impl View for EntryFault {
    type V = EntryFaultModel;

    open spec fn view(&self) -> EntryFaultModel {
        match self {
            EntryFault::Unsupported(m) => EntryFaultModel::Unsupported(m@),
            EntryFault::Invalid(m) => EntryFaultModel::Invalid(m@),
            EntryFault::Io(m) => EntryFaultModel::Io(m@),
            EntryFault::NotFound => EntryFaultModel::NotFound,
            EntryFault::BadPassword => EntryFaultModel::BadPassword,
            EntryFault::Other(m) => EntryFaultModel::Other(m@),
        }
    }
}

/// What attempting to decrypt one entry with a password yields.
pub enum DecryptOutcome {
    /// The entry decrypted and its check passed; it carries the
    /// entry's compressed and uncompressed sizes, in bytes.
    Unlocked(u64, u64),
    /// The entry was found but the password check failed; it carries
    /// the diagnostic message.
    WrongPassword(String),
    /// The container rejected the decryption attempt outright.
    Refused,
}

/// The spec-level image of a `DecryptOutcome`.
pub enum DecryptModel {
    Unlocked(u64, u64),
    WrongPassword(Seq<char>),
    Refused,
}

impl View for DecryptOutcome {
    type V = DecryptModel;

    open spec fn view(&self) -> DecryptModel {
        match self {
            DecryptOutcome::Unlocked(c, u) => DecryptModel::Unlocked(*c, *u),
            DecryptOutcome::WrongPassword(m) => DecryptModel::WrongPassword(m@),
            DecryptOutcome::Refused => DecryptModel::Refused,
        }
    }
}

/// The bytes that an open archive was read from.
pub uninterp spec fn archive_bytes(a: zip::ZipArchive<std::io::Cursor<Vec<u8>>>) -> Seq<u8>;

/// What parsing these bytes as a ZIP container yields: no value when
/// the central directory parses, otherwise the parser's diagnostic.
pub uninterp spec fn zip_open_diag(bytes: Seq<u8>) -> Option<Seq<char>>;

/// How many entries the open archive hands out: one per distinct
/// declared path in the container's central directory.
pub uninterp spec fn zip_entry_count(bytes: Seq<u8>) -> usize;

/// The declared path of entry `i`, as recorded in the container's
/// central directory.
pub uninterp spec fn zip_declared_name(bytes: Seq<u8>, i: int) -> Seq<char>;

/// Entry `i`'s compressed and uncompressed sizes as reported when the
/// entry is opened for reading without a password, or the fault that
/// opening it reports; an encrypted entry reports an
/// unsupported-feature fault naming the required password.
pub uninterp spec fn zip_entry_sizes(bytes: Seq<u8>, i: int) -> Result<(u64, u64), EntryFaultModel>;

/// What decrypting entry `i` of the archive with `password` yields.
pub uninterp spec fn zip_unlock(bytes: Seq<u8>, i: int, password: Seq<char>) -> DecryptModel;

/// Relies on zip::ZipArchive::new: parses the bytes' central directory
/// into an archive handle; on failure the error's display text is the
/// diagnostic.
#[verifier::external_body]
pub(crate) fn open_archive(bytes: Vec<u8>) -> (r: Result<
    zip::ZipArchive<std::io::Cursor<Vec<u8>>>,
    String,
>)
    ensures
        match r {
            Ok(a) => zip_open_diag(bytes@) is None && archive_bytes(a) == bytes@,
            Err(m) => zip_open_diag(bytes@) matches Some(d) && m@ == d,
        },
{
    match zip::ZipArchive::new(std::io::Cursor::new(bytes)) {
        Ok(a) => Ok(a),
        Err(e) => Err(e.to_string()),
    }
}

/// Relies on zip::ZipArchive::len: the number of entries the archive
/// hands out, one per distinct declared path.
#[verifier::external_body]
pub(crate) fn entry_count(a: &zip::ZipArchive<std::io::Cursor<Vec<u8>>>) -> (n: usize)
    ensures
        n == zip_entry_count(archive_bytes(*a)),
{
    a.len()
}

/// Relies on zip::ZipArchive::name_for_index: the declared path of
/// entry `i`, straight from the central directory, present exactly for
/// the indices below the entry count.
#[verifier::external_body]
pub(crate) fn declared_name(a: &zip::ZipArchive<std::io::Cursor<Vec<u8>>>, i: usize) -> (r: Option<
    String,
>)
    ensures
        match r {
            Some(name) => i < zip_entry_count(archive_bytes(*a)) && name@ == zip_declared_name(
                archive_bytes(*a),
                i as int,
            ),
            None => i >= zip_entry_count(archive_bytes(*a)),
        },
{
    a.name_for_index(i).map(|name| name.to_string())
}

/// Relies on zip::ZipArchive::by_index: opens entry `i` for reading
/// without a password, which fails on an encrypted entry with the
/// crate's password-required text; the entry's declared sizes are
/// taken from its header, and the archive's bytes are unchanged.
#[verifier::external_body]
pub(crate) fn entry_sizes(a: &mut zip::ZipArchive<std::io::Cursor<Vec<u8>>>, i: usize) -> (r:
    Result<(u64, u64), EntryFault>)
    ensures
        archive_bytes(*final(a)) == archive_bytes(*old(a)),
        match r {
            Ok(s) => zip_entry_sizes(archive_bytes(*old(a)), i as int) == Ok::<
                (u64, u64),
                EntryFaultModel,
            >(s),
            Err(f) => zip_entry_sizes(archive_bytes(*old(a)), i as int) matches Err(m) && f@
                == m,
        },
{
    match a.by_index(i) {
        Ok(f) => Ok((f.compressed_size(), f.size())),
        Err(zip::result::ZipError::Io(e)) => Err(EntryFault::Io(e.to_string())),
        Err(zip::result::ZipError::InvalidArchive(m)) => Err(EntryFault::Invalid(m.to_string())),
        Err(zip::result::ZipError::UnsupportedArchive(m)) => Err(
            EntryFault::Unsupported(m.to_string()),
        ),
        Err(zip::result::ZipError::FileNotFound) => Err(EntryFault::NotFound),
        Err(zip::result::ZipError::InvalidPassword) => Err(EntryFault::BadPassword),
        Err(e) => Err(EntryFault::Other(e.to_string())),
    }
}

/// Relies on zip::ZipArchive::by_index_decrypt: opens entry `i` with
/// the password's bytes as the key; a failed password check reports
/// the invalid-password diagnostic, any other failure is a refusal.
/// The entry's declared sizes are taken from its header, and the
/// archive's bytes are unchanged.
#[verifier::external_body]
pub(crate) fn unlock_entry(
    a: &mut zip::ZipArchive<std::io::Cursor<Vec<u8>>>,
    i: usize,
    password: &str,
) -> (r: DecryptOutcome)
    ensures
        archive_bytes(*final(a)) == archive_bytes(*old(a)),
        r@ == zip_unlock(archive_bytes(*old(a)), i as int, password@),
{
    match a.by_index_decrypt(i, password.as_bytes()) {
        Ok(f) => DecryptOutcome::Unlocked(f.compressed_size(), f.size()),
        Err(e @ zip::result::ZipError::InvalidPassword) => DecryptOutcome::WrongPassword(
            e.to_string(),
        ),
        Err(_) => DecryptOutcome::Refused,
    }
}

} // verus!
