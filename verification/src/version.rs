//! Storage-version gate: which stored collection versions this application
//! may open, and which differences are fatal.

use vstd::prelude::*;

use crate::types::CollectionError;

verus! {

/// Numeric components of a storage version.
#[derive(Clone, Copy, PartialEq, Eq, Structural, Debug)]
pub struct Version {
    pub major: u64,
    pub minor: u64,
    pub patch: u64,
}

impl Version {
    /// Strict precedence on the numeric components, major first.
    pub open spec fn spec_lt(self, other: Version) -> bool {
        self.major < other.major
            || (self.major == other.major && self.minor < other.minor)
            || (self.major == other.major && self.minor == other.minor
                && self.patch < other.patch)
    }

    /// True iff `self` precedes `other`.
    pub fn precedes(&self, other: &Version) -> (r: bool)
        ensures
            r == self.spec_lt(*other),
    {
        self.major < other.major
            || (self.major == other.major && self.minor < other.minor)
            || (self.major == other.major && self.minor == other.minor
                && self.patch < other.patch)
    }
}

/// What the numeric components of a version string parse to, if it is a
/// well-formed semantic version.
pub uninterp spec fn parsed_version(s: Seq<char>) -> Option<Version>;

/// Relies on `semver::Version::parse` to read a version string; the result
/// depends on the characters alone. Pre-release and build metadata are
/// dropped, only the numeric components are kept.
#[verifier::external_body]
pub(crate) fn parse_version(s: &str) -> (r: Option<Version>)
    ensures
        r == parsed_version(s@),
{
    match semver::Version::parse(s) {
        Ok(v) => Some(Version { major: v.major, minor: v.minor, patch: v.patch }),
        Err(_) => None,
    }
}

/// Whether a collection stored at version `stored` may be opened, and then
/// migrated, by an application at version `app`: same major, same minor, and
/// the application at most one patch ahead.
pub open spec fn spec_can_upgrade_storage(stored: Version, app: Version) -> bool {
    stored.major == app.major && stored.minor == app.minor && app.patch <= stored.patch + 1
}

/// Check if the stored version has a consequent version.
/// If the major or minor version differs, the storage is not compatible.
/// If the patch difference is greater than 1, it is not compatible either.
pub fn can_upgrade_storage(stored: &Version, app: &Version) -> (r: bool)
    ensures
        r == spec_can_upgrade_storage(*stored, *app),
{
    if stored.major != app.major {
        return false;
    }
    if stored.minor != app.minor {
        return false;
    }
    if app.patch > stored.patch && app.patch - stored.patch > 1 {
        return false;
    }
    true
}

/// Verdict on a stored collection version against the running application.
#[derive(Clone, Copy, PartialEq, Eq, Structural, Debug)]
pub enum StorageCompatibility {
    /// The two versions are equal; nothing to do.
    UpToDate,
    /// The storage precedes the application closely enough; re-save it.
    Migrate,
    /// The storage is ahead of the application; fatal.
    Downgrade,
    /// The two versions differ too much to reconcile; fatal.
    Incompatible,
}

/// What opening a collection stored at `stored` must do under an application
/// at `app`.
pub open spec fn spec_check_storage_compatibility(
    stored: Version,
    app: Version,
) -> StorageCompatibility {
    if app.spec_lt(stored) {
        StorageCompatibility::Downgrade
    } else if stored == app {
        StorageCompatibility::UpToDate
    } else if spec_can_upgrade_storage(stored, app) {
        StorageCompatibility::Migrate
    } else {
        StorageCompatibility::Incompatible
    }
}

/// Decide what opening a collection stored at `stored` must do under an
/// application at `app`.
pub fn check_storage_compatibility(stored: &Version, app: &Version) -> (r:
    StorageCompatibility)
    ensures
        r == spec_check_storage_compatibility(*stored, *app),
{
    if app.precedes(stored) {
        StorageCompatibility::Downgrade
    } else if stored.major == app.major && stored.minor == app.minor
        && stored.patch == app.patch {
        StorageCompatibility::UpToDate
    } else if can_upgrade_storage(stored, app) {
        StorageCompatibility::Migrate
    } else {
        StorageCompatibility::Incompatible
    }
}

/// Decide compatibility from raw version strings, as read from the `version`
/// marker file and from the application's own package version.
pub fn check_stored_version_strings(stored: &str, app: &str) -> (r: Result<
    StorageCompatibility,
    CollectionError,
>)
    ensures
        match (parsed_version(stored@), parsed_version(app@)) {
            (Some(s), Some(a)) => r == Ok::<StorageCompatibility, CollectionError>(
                spec_check_storage_compatibility(s, a),
            ),
            _ => r is Err && r->Err_0 is ServiceError,
        },
{
    let stored_v = parse_version(stored);
    let app_v = parse_version(app);
    match (stored_v, app_v) {
        (Some(s), Some(a)) => Ok(check_storage_compatibility(&s, &a)),
        _ => Err(CollectionError::service_error(String::from_str(
            "failed to parse a storage version string",
        ))),
    }
}

/// The version gate holds exactly on consecutive-or-equal patches of the same
/// minor line: `can_upgrade_storage(a, b)` is true iff `a` and `b` share
/// major and minor and `b.patch <= a.patch + 1`.
pub proof fn lemma_version_gate_exact(a: Version, b: Version)
    ensures
        spec_can_upgrade_storage(a, b) <==> (a.major == b.major && a.minor == b.minor
            && b.patch <= a.patch + 1),
{
}

} // verus!
