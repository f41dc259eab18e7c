//! Names and checks around the mods root: archive formats, temporary
//! directories, the rename of a messy archive, and the errors of the pipeline.
use vstd::prelude::*;
use crate::decimal::{signed_decimal, signed_decimal_of};
use crate::names::{names_match, same_name};
use crate::install::{candidate_names, names_view, taken_within};

verus! {

/// What can go wrong while managing mods.
#[derive(PartialEq, Eq, Structural, Clone, Copy, Debug)]
pub enum ManagerError {
    /// The game's installation directory could not be found.
    PathNotFound,
    /// The archive's extension is neither `zip` nor `rar`.
    UnsupportedFormat,
    /// The destination of a rename is already taken.
    AlreadyExists,
    /// The temporary folder of a messy archive is gone.
    TempFolderMissing,
    /// The settings document could not be written.
    SerializeFailure,
}

/// The archive formats that can be installed.
#[derive(PartialEq, Eq, Structural, Clone, Copy, Debug)]
pub enum ArchiveKind {
    Zip,
    Rar,
}

pub open spec fn zip_ext() -> Seq<char> {
    seq!['z', 'i', 'p']
}

pub open spec fn rar_ext() -> Seq<char> {
    seq!['r', 'a', 'r']
}

/// Picks the decoder by the archive's file extension, without regard to ASCII
/// case: `zip` and `rar` are known, anything else is unsupported.
pub fn archive_kind(extension: &str) -> (r: Result<ArchiveKind, ManagerError>)
    ensures
        r == if same_name(extension@, zip_ext()) {
            Ok(ArchiveKind::Zip)
        } else if same_name(extension@, rar_ext()) {
            Ok(ArchiveKind::Rar)
        } else {
            Err(ManagerError::UnsupportedFormat)
        },
{
    proof {
        reveal_strlit("zip");
        reveal_strlit("rar");
        assert("zip"@ =~= zip_ext());
        assert("rar"@ =~= rar_ext());
    }
    if names_match(extension, "zip") {
        Ok(ArchiveKind::Zip)
    } else if names_match(extension, "rar") {
        Ok(ArchiveKind::Rar)
    } else {
        Err(ManagerError::UnsupportedFormat)
    }
}

/// Whether a messy archive's folder may be renamed to `new_name` beside `siblings`.
pub open spec fn finalize_outcome(temp_exists: bool, new_name: Seq<char>, siblings: Seq<Seq<char>>) -> Result<(), ManagerError> {
    if !temp_exists {
        Err(ManagerError::TempFolderMissing)
    } else if taken_within(siblings, siblings.len() as int, new_name) {
        Err(ManagerError::AlreadyExists)
    } else {
        Ok(())
    }
}

/// Decides whether the temporary folder of a messy archive may be renamed to
/// `new_name` beside the folders named in `siblings`: the folder has to be
/// there, and no sibling may carry the new name (up to ASCII case).
pub fn check_finalize(temp_exists: bool, new_name: &str, siblings: &Vec<String>) -> (r: Result<(), ManagerError>)
    ensures
        r == finalize_outcome(temp_exists, new_name@, names_view(siblings@)),
{
    if !temp_exists {
        return Err(ManagerError::TempFolderMissing);
    }
    let ghost nv = names_view(siblings@);
    let mut j: usize = 0;
    while j < siblings.len()
        invariant
            temp_exists,
            nv == names_view(siblings@),
            j <= siblings@.len(),
            forall|k: int| 0 <= k < j ==> !same_name(#[trigger] nv[k], new_name@),
        decreases siblings.len() - j,
    {
        if names_match(siblings[j].as_str(), new_name) {
            assert(same_name(nv[j as int], new_name@));
            assert(taken_within(nv, siblings@.len() as int, new_name@));
            return Err(ManagerError::AlreadyExists);
        }
        j = j + 1;
    }
    Ok(())
}

pub open spec fn extract_prefix() -> Seq<char> {
    seq!['t', 'e', 'm', 'p', '_', 'e', 'x', 't', 'r', 'a', 'c', 't', '_']
}

pub open spec fn staging_prefix() -> Seq<char> {
    seq!['t', 'e', 'm', 'p', '_', 's', 't', 'a', 'g', 'i', 'n', 'g', '_']
}

/// The name of the extraction directory made at `millis`.
pub fn extraction_dir_name(millis: i64) -> (r: String)
    ensures
        r@ == extract_prefix() + signed_decimal_of(millis as int),
{
    proof {
        reveal_strlit("temp_extract_");
        assert("temp_extract_"@ =~= extract_prefix());
    }
    let mut s = String::from_str("temp_extract_");
    let d = signed_decimal(millis);
    s.append(d.as_str());
    s
}

/// The name of the staging area made at `millis`.
pub fn staging_dir_name(millis: i64) -> (r: String)
    ensures
        r@ == staging_prefix() + signed_decimal_of(millis as int),
{
    proof {
        reveal_strlit("temp_staging_");
        assert("temp_staging_"@ =~= staging_prefix());
    }
    let mut s = String::from_str("temp_staging_");
    let d = signed_decimal(millis);
    s.append(d.as_str());
    s
}

/// Relies on chrono's `DateTime<Utc>::from(SystemTime)` and
/// `DateTime::timestamp_millis`: the milliseconds since the Unix epoch of the
/// system clock, negative for a clock set before the epoch.
#[verifier::external_body]
fn now_millis() -> i64 {
    chrono::DateTime::<chrono::Utc>::from(std::time::SystemTime::now()).timestamp_millis()
}

/// A fresh name for an extraction directory, from the current time.
pub fn new_extraction_dir_name() -> (r: String)
    ensures
        exists|m: int| r@ == extract_prefix() + signed_decimal_of(m),
{
    extraction_dir_name(now_millis())
}

/// A fresh name for a staging area, from the current time.
pub fn new_staging_dir_name() -> (r: String)
    ensures
        exists|m: int| r@ == staging_prefix() + signed_decimal_of(m),
{
    staging_dir_name(now_millis())
}

pub open spec fn declaration() -> Seq<char> {
    "<?xml version=\"1.0\" encoding=\"utf-8\"?>\n"@
}

/// The settings document's text: the fixed declaration line, then `body`.
pub fn with_declaration(body: &str) -> (r: String)
    ensures
        r@ == declaration() + body@,
{
    let mut s = String::from_str("<?xml version=\"1.0\" encoding=\"utf-8\"?>\n");
    s.append(body);
    s
}

proof fn lemma_no_directories(entries: Seq<(Seq<char>, bool)>)
    requires
        forall|i: int| 0 <= i < entries.len() ==> !(#[trigger] entries[i]).1,
    ensures
        candidate_names(entries).len() == 0,
    decreases entries.len(),
{
    if entries.len() > 0 {
        let d = entries.drop_last();
        assert forall|i: int| 0 <= i < d.len() implies !(#[trigger] d[i]).1 by {
            assert(d[i] == entries[i]);
        }
        lemma_no_directories(d);
        assert(!entries[entries.len() - 1].1);
    }
}

/// An archive with only files at its top has no candidate mod, so it is messy;
/// its folder may then be renamed to any name that no sibling carries.
pub proof fn lemma_messy_archive_finalizes(
    entries: Seq<(Seq<char>, bool)>,
    new_name: Seq<char>,
    siblings: Seq<Seq<char>>,
)
    requires
        forall|i: int| 0 <= i < entries.len() ==> !(#[trigger] entries[i]).1,
        !taken_within(siblings, siblings.len() as int, new_name),
    ensures
        candidate_names(entries).len() == 0,
        finalize_outcome(true, new_name, siblings) == Ok::<(), ManagerError>(()),
{
    lemma_no_directories(entries);
}

} // verus!
