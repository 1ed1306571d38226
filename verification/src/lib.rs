//! Update helpers for desktop applications that publish their builds as
//! GitHub releases: release selection per channel, tag-to-version
//! normalization, and SHA-256 verification of downloaded assets.

pub mod update;
pub mod text;
pub mod version;
pub mod digest;
pub mod release;
pub mod github;

pub use update::{UpdateError, UpdateType};
pub use digest::{expected_hash, sha256_hex, strip_hash_label, DownloadProgress};
pub use github::{
    cache_is_fresh, GitHubUpdater, GitHubUpdaterBuilder, GitHubUpdaterBuilderError,
    RELEASE_CACHE_TTL_SECS,
};
pub use release::{
    releases_from_cache, releases_from_response, CacheDecision, find_asset, first_suitable_release, latest_version, select_download, AssetInfo, DownloadTarget,
    ReleaseInfo,
};
pub use version::{normalize_version_tag, parse_version, version_from_tag, SemVersion};
