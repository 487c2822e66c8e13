//! Archive inspection: failure values, size metadata, and the `open`
//! routine that inspects a ZIP archive held in memory.

use crate::text::{decimal_string, digit_str, get_filename, lemma_decimal_digits, spec_all_digits,
    spec_basename, spec_decimal, spec_digit_char};
use crate::zip_ext::{declared_name, entry_count, entry_sizes, open_archive, unlock_entry,
    archive_bytes, zip_declared_name, zip_entry_count, zip_entry_sizes, zip_open_diag, zip_unlock,
    DecryptModel, DecryptOutcome, EntryFault, EntryFaultModel};
use vstd::prelude::*;

verus! {

/// Quotient of `n / d`, rounded to the nearest integer, ties to the
/// even neighbour.
pub open spec fn spec_round_half_even(n: int, d: int) -> int
    recommends
        d >= 1,
{
    let q = n / d;
    let r = n % d;
    if 2 * r > d {
        q + 1
    } else if 2 * r < d {
        q
    } else if q % 2 == 0 {
        q
    } else {
        q + 1
    }
}

/// A byte count scaled into its display unit, in hundredths: the value
/// is divided by 1024 while it is at least 1024, at most three times,
/// and the quotient is kept to two decimal places, rounded half to
/// even.
pub open spec fn spec_scaled(b: nat) -> int {
    if b < 1024 {
        b * 100 as int
    } else if b < 1048576 {
        spec_round_half_even(b * 100 as int, 1024)
    } else if b < 1073741824 {
        spec_round_half_even(b * 100 as int, 1048576)
    } else {
        spec_round_half_even(b * 100 as int, 1073741824)
    }
}

/// The display unit that goes with a byte count: each step of 1024
/// advances one unit, stopping at GB.
pub open spec fn spec_unit_suffix(b: nat) -> Seq<char> {
    if b < 1024 {
        "B"@
    } else if b < 1048576 {
        "KB"@
    } else if b < 1073741824 {
        "MB"@
    } else {
        "GB"@
    }
}

/// The human-readable rendering of a byte count: the scaled value with
/// two decimal places, followed by its unit.
pub open spec fn spec_format_bytes(b: nat) -> Seq<char> {
    let s = spec_scaled(b);
    spec_decimal((s / 100) as nat) + seq![
        '.',
        spec_digit_char(s % 100 / 10),
        spec_digit_char(s % 100 % 10),
    ] + spec_unit_suffix(b)
}

fn round_half_even(n: u128, d: u128) -> (q: u128)
    requires
        2 <= d <= 1073741824,
    ensures
        q == spec_round_half_even(n as int, d as int),
        q <= n,
{
    let quo = n / d;
    let rem = n % d;
    proof {
        assert(n == quo * d + rem && quo <= n && (rem >= 1 ==> quo + 1 <= n))
            by (nonlinear_arith)
            requires
                quo == n / d,
                rem == n % d,
                2 <= d,
        ;
    }
    if 2 * rem > d {
        quo + 1
    } else if 2 * rem < d {
        quo
    } else if quo % 2 == 0 {
        quo
    } else {
        quo + 1
    }
}

/// Holds when `s` is one or more digits, then a point, then exactly
/// two digits, then one of the units B, KB, MB and GB.
pub open spec fn spec_size_string_shape(s: Seq<char>) -> bool {
    exists|w: int|
        {
            &&& 1 <= w
            &&& w + 3 <= s.len()
            &&& spec_all_digits(#[trigger] s.take(w))
            &&& s[w] == '.'
            &&& '0' <= s[w + 1] <= '9'
            &&& '0' <= s[w + 2] <= '9'
            &&& (s.skip(w + 3) == "B"@ || s.skip(w + 3) == "KB"@ || s.skip(w + 3) == "MB"@ || s.skip(
                w + 3,
            ) == "GB"@)
        }
}

/// Law: every formatted byte count has the shape digits, point, two
/// digits, unit, with the unit one of B, KB, MB and GB — so no byte
/// count, however large, ever renders with a fifth unit.
pub proof fn lemma_format_bytes_shape(b: nat)
    ensures
        spec_size_string_shape(spec_format_bytes(b)),
{
    let sc = spec_scaled(b);
    let whole = spec_decimal((sc / 100) as nat);
    let unit = spec_unit_suffix(b);
    let s = spec_format_bytes(b);
    let w = whole.len() as int;
    lemma_decimal_digits((sc / 100) as nat);
    assert(s.take(w) =~= whole);
    assert(s.skip(w + 3) =~= unit);
    assert('0' <= spec_digit_char(sc % 100 / 10) <= '9');
    assert('0' <= spec_digit_char(sc % 100 % 10) <= '9');
    assert(s[w] == '.');
    assert(s[w + 1] == spec_digit_char(sc % 100 / 10));
    assert(s[w + 2] == spec_digit_char(sc % 100 % 10));
}

/// Size metadata of an archive: its compressed and uncompressed sizes,
/// each formatted as a human-readable unit string, and its display
/// name.
pub struct MetaData {
    /// The archive's compressed size, formatted with a unit.
    pub compressed: String,
    /// The archive's uncompressed size, formatted with a unit.
    pub size: String,
    /// The display name of the archive file.
    pub name: String,
}

impl MetaData {
    /// Formats a byte count as a human-readable string with a unit of
    /// B, KB, MB or GB and two decimal places. Values of 1024 GB or
    /// more stay in GB.
    pub fn format_bytes(bytes: u64) -> (s: String)
        ensures
            s@ == spec_format_bytes(bytes as nat),
    {
        let wide = (bytes as u128) * 100;
        let (scaled, unit): (u128, &'static str) = if bytes < 1024 {
            (wide, "B")
        } else if bytes < 1048576 {
            (round_half_even(wide, 1024), "KB")
        } else if bytes < 1073741824 {
            (round_half_even(wide, 1048576), "MB")
        } else {
            (round_half_even(wide, 1073741824), "GB")
        };
        proof {
            assert(scaled as int == spec_scaled(bytes as nat));
            assert(unit@ == spec_unit_suffix(bytes as nat));
            assert(scaled / 100 <= wide / 100 && wide / 100 == bytes) by (nonlinear_arith)
                requires
                    scaled <= wide,
                    wide == (bytes as u128) * 100,
            ;
        }
        let int_part = (scaled / 100) as u64;
        let frac = (scaled % 100) as u8;
        let mut out = decimal_string(int_part);
        out.append(".");
        out.append(digit_str(frac / 10));
        out.append(digit_str(frac % 10));
        out.append(unit);
        proof {
            reveal_strlit(".");
            assert("."@ =~= seq!['.']);
            assert(out@ =~= spec_format_bytes(bytes as nat));
        }
        out
    }

    /// Builds the metadata for an archive out of its raw sizes and its
    /// display name.
    pub fn new(compressed: u64, size: u64, name: String) -> (m: MetaData)
        ensures
            m.compressed@ == spec_format_bytes(compressed as nat),
            m.size@ == spec_format_bytes(size as nat),
            m.name == name,
    {
        MetaData {
            compressed: Self::format_bytes(compressed),
            size: Self::format_bytes(size),
            name,
        }
    }
}

/// Failure value produced when opening an archive does not succeed.
///
/// Every failure path yields one of these rather than panicking.
pub struct Error {
    /// True iff the failure is attributable to missing or incorrect
    /// decryption credentials.
    pub password_required: bool,
    /// The resolved archive path, or empty if resolution itself failed.
    pub path: String,
    /// A free-text diagnostic message.
    pub message: String,
}

impl Error {
    /// An `Error` with every field blank: no password needed, empty path,
    /// empty message.
    pub fn blank() -> (e: Error)
        ensures
            !e.password_required,
            e.path@ == Seq::<char>::empty(),
            e.message@ == Seq::<char>::empty(),
    {
        Error { password_required: false, path: String::new(), message: String::new() }
    }
}

/// The result of a successful archive inspection.
pub struct Success {
    /// The declared paths of everything in the archive, in the
    /// container's declared order.
    pub contents: Vec<String>,
    /// The file path of the archive.
    pub path: String,
    /// Size and name metadata of the archive.
    pub meta: MetaData,
}

/// The diagnostic the zip crate reports when an entry needs a password.
pub open spec fn spec_password_required_text() -> Seq<char> {
    "Password required to decrypt file"@
}

/// Whether an entry fault means that a password is missing: it is the
/// unsupported-feature fault carrying the password-required text.
pub open spec fn spec_fault_password_required(f: EntryFaultModel) -> bool {
    f matches EntryFaultModel::Unsupported(m) && m == spec_password_required_text()
}

/// The diagnostic an entry fault carries into the failure value:
/// unsupported-feature and invalid-archive faults keep their message,
/// everything else is reported blank.
pub open spec fn spec_fault_message(f: EntryFaultModel) -> Seq<char> {
    match f {
        EntryFaultModel::Unsupported(m) => m,
        EntryFaultModel::Invalid(m) => m,
        EntryFaultModel::Io(_) => Seq::empty(),
        EntryFaultModel::NotFound => Seq::empty(),
        EntryFaultModel::BadPassword => Seq::empty(),
        EntryFaultModel::Other(_) => Seq::empty(),
    }
}

fn classify_fault(f: EntryFault) -> (r: (bool, String))
    ensures
        r.0 == spec_fault_password_required(f@),
        r.1@ == spec_fault_message(f@),
{
    match f {
        EntryFault::Unsupported(m) => {
            let required = String::from_str("Password required to decrypt file");
            let is_required = m == required;
            (is_required, m)
        },
        EntryFault::Invalid(m) => (false, m),
        EntryFault::Io(_) => (false, String::new()),
        EntryFault::NotFound => (false, String::new()),
        EntryFault::BadPassword => (false, String::new()),
        EntryFault::Other(_) => (false, String::new()),
    }
}

/// The declared names of the first `n` entries, in container order.
pub open spec fn spec_listed_names(bytes: Seq<u8>, n: int) -> Seq<Seq<char>> {
    Seq::new(n as nat, |i: int| zip_declared_name(bytes, i))
}

/// Every entry index below `k` opens for reading without a password.
pub open spec fn spec_sizes_ok_upto(bytes: Seq<u8>, k: int) -> bool {
    forall|i: int| 0 <= i < k ==> zip_entry_sizes(bytes, i) is Ok
}

/// Addition on byte counts that stops at the largest representable
/// value instead of overflowing.
pub open spec fn spec_sat_add_u64(a: u64, b: u64) -> u64 {
    if a + b > u64::MAX {
        u64::MAX
    } else {
        (a + b) as u64
    }
}

/// The compressed sizes of the first `k` entries, summed front to
/// back, stopping at the largest representable value.
pub open spec fn spec_total_compressed(bytes: Seq<u8>, k: int) -> u64
    decreases k,
{
    if k <= 0 {
        0
    } else {
        spec_sat_add_u64(
            spec_total_compressed(bytes, k - 1),
            zip_entry_sizes(bytes, k - 1)->Ok_0.0,
        )
    }
}

/// The uncompressed sizes of the first `k` entries, summed front to
/// back, stopping at the largest representable value.
pub open spec fn spec_total_uncompressed(bytes: Seq<u8>, k: int) -> u64
    decreases k,
{
    if k <= 0 {
        0
    } else {
        spec_sat_add_u64(
            spec_total_uncompressed(bytes, k - 1),
            zip_entry_sizes(bytes, k - 1)->Ok_0.1,
        )
    }
}

fn sat_add(a: u64, b: u64) -> (r: u64)
    ensures
        r == spec_sat_add_u64(a, b),
{
    if b > u64::MAX - a {
        u64::MAX
    } else {
        a + b
    }
}

/// Inspects the ZIP archive whose raw bytes are `bytes`, read from
/// `path`.
///
/// The entry listing is captured first, in container order, without
/// touching any entry's data. With no password, every entry is then
/// opened without one and the size totals accumulate over all of them;
/// the first entry that cannot be opened fails the call, with
/// `password_required` set exactly when the fault names a missing
/// password. With a password, only the first entry is decrypted: its
/// sizes alone form the totals when the password verifies, a failed
/// password check fails the call with `password_required` set, and any
/// other rejection yields the blank failure.
#[verifier::loop_isolation(false)]
pub fn open(path: String, bytes: Vec<u8>, password: Option<String>) -> (r: Result<Success, Error>)
    ensures
        ({
            let b = bytes@;
            let n = zip_entry_count(b) as int;
            match r {
                Ok(s) => {
                    &&& zip_open_diag(b) is None
                    &&& s.contents.deep_view() == spec_listed_names(b, n)
                    &&& s.path == path
                    &&& s.meta.name@ == spec_basename(path@)
                    &&& match password {
                        Some(pw) => zip_unlock(b, 0, pw@) matches DecryptModel::Unlocked(c, u)
                            && s.meta.compressed@ == spec_format_bytes(c as nat)
                            && s.meta.size@ == spec_format_bytes(u as nat),
                        None => {
                            &&& spec_sizes_ok_upto(b, n)
                            &&& s.meta.compressed@ == spec_format_bytes(
                                spec_total_compressed(b, n) as nat,
                            )
                            &&& s.meta.size@ == spec_format_bytes(
                                spec_total_uncompressed(b, n) as nat,
                            )
                        },
                    }
                },
                Err(e) => {
                    ||| {
                        &&& zip_open_diag(b) matches Some(d) && e.message@ == d
                        &&& !e.password_required
                        &&& e.path == path
                    }
                    ||| {
                        &&& zip_open_diag(b) is None
                        &&& password is None
                        &&& e.path == path
                        &&& exists|k: int|
                            {
                                &&& 0 <= k < n
                                &&& spec_sizes_ok_upto(b, k)
                                &&& (#[trigger] zip_entry_sizes(b, k)) matches Err(f)
                                    && e.password_required == spec_fault_password_required(f)
                                    && e.message@ == spec_fault_message(f)
                            }
                    }
                    ||| {
                        &&& zip_open_diag(b) is None
                        &&& password matches Some(pw) && (zip_unlock(b, 0, pw@) matches
                            DecryptModel::WrongPassword(m) && e.message@ == m)
                        &&& e.password_required
                        &&& e.path == path
                    }
                    ||| {
                        &&& zip_open_diag(b) is None
                        &&& password matches Some(pw) && zip_unlock(b, 0, pw@) is Refused
                        &&& !e.password_required
                        &&& e.path@ == Seq::<char>::empty()
                        &&& e.message@ == Seq::<char>::empty()
                    }
                },
            }
        }),
{
    let ghost b = bytes@;
    let mut archive = match open_archive(bytes) {
        Ok(a) => a,
        Err(m) => {
            return Err(Error { password_required: false, path, message: m });
        },
    };
    let n = entry_count(&archive);
    let mut contents: Vec<String> = Vec::new();
    let mut i: usize = 0;
    proof {
        assert(contents.deep_view() =~= spec_listed_names(b, 0));
    }
    while i < n
        invariant
            i <= n,
            n == zip_entry_count(b),
            archive_bytes(archive) == b,
            zip_open_diag(b) is None,
            contents.deep_view() == spec_listed_names(b, i as int),
        decreases n - i,
    {
        match declared_name(&archive, i) {
            Some(name) => {
                let ghost pre = contents.deep_view();
                contents.push(name);
                proof {
                    assert(contents.deep_view() =~= pre.push(name@));
                    assert(contents.deep_view() =~= spec_listed_names(b, i as int + 1));
                }
            },
            None => {
                proof {
                    assert(false);
                }
            },
        }
        i += 1;
    }
    let name = get_filename(path.as_str());
    match password {
        Some(pw) => {
            match unlock_entry(&mut archive, 0, pw.as_str()) {
                DecryptOutcome::Unlocked(compressed, size) => Ok(
                    Success { contents, path, meta: MetaData::new(compressed, size, name) },
                ),
                DecryptOutcome::WrongPassword(message) => Err(
                    Error { password_required: true, path, message },
                ),
                DecryptOutcome::Refused => Err(Error::blank()),
            }
        },
        None => {
            let mut compressed: u64 = 0;
            let mut size: u64 = 0;
            let mut j: usize = 0;
            while j < n
                invariant
                    j <= n,
                    n == zip_entry_count(b),
                    archive_bytes(archive) == b,
                    zip_open_diag(b) is None,
                    spec_sizes_ok_upto(b, j as int),
                    compressed == spec_total_compressed(b, j as int),
                    size == spec_total_uncompressed(b, j as int),
                decreases n - j,
            {
                match entry_sizes(&mut archive, j) {
                    Ok(sizes) => {
                        compressed = sat_add(compressed, sizes.0);
                        size = sat_add(size, sizes.1);
                    },
                    Err(f) => {
                        proof {
                            assert((j as int) < (zip_entry_count(b) as int));
                            assert(spec_sizes_ok_upto(b, j as int));
                            assert(zip_entry_sizes(b, j as int) is Err);
                        }
                        let (password_required, message) = classify_fault(f);
                        return Err(Error { password_required, path, message });
                    },
                }
                j += 1;
            }
            Ok(Success { contents, path, meta: MetaData::new(compressed, size, name) })
        },
    }
}

} // verus!
