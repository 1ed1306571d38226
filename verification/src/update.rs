use vstd::prelude::*;

verus! {

/// Selects which release channel should be queried for updates.
///
/// A provider always includes stable releases; `Preview` additionally
/// permits prerelease releases.
#[derive(Debug, Clone, Copy, PartialEq, Eq, Structural)]
pub enum UpdateType {
    /// Selects stable, non-prerelease releases.
    Stable,
    /// Selects stable and prerelease/preview releases.
    Preview,
}

impl UpdateType {
    /// Whether a release with the given prerelease flag belongs to this channel.
    pub open spec fn includes(self, prerelease: bool) -> bool {
        !(prerelease && self == UpdateType::Stable)
    }
}

/// Why an update could not be resolved or verified.
#[derive(Debug, Clone, PartialEq, Eq)]
pub enum UpdateError {
    /// No release of the selected channel (holding the wanted asset, when
    /// downloading) was found.
    NoSuitableRelease,
    /// The first matching release asset carries no digest to check against.
    MissingDigest,
    /// The normalized tag of the selected release is not a semantic version:
    /// the text that was parsed and `semver`'s message saying why it failed.
    InvalidVersion { text: String, reason: String },
    /// GitHub's reply is not a release list.
    UnreadableReleaseList,
    /// The progress callback asked to stop the download; what was received
    /// is discarded.
    Cancelled,
    /// The digest of the downloaded bytes differs from the expected one.
    HashMismatch { expected: String, actual: String },
}

} // verus!
