use octocrab::models::repos::Release;
use vstd::prelude::*;

use crate::digest::{expected_hash, expected_hash_text};
use crate::github::{cache_is_fresh, opt_text, RELEASE_CACHE_TTL_SECS};
use crate::update::{UpdateError, UpdateType};
use crate::version::{plain_version_numbers, semver_parse, version_from_tag, version_text_of_tag, SemVersion};

verus! {

/// What the update logic reads of a release asset.
#[derive(Debug, Clone, PartialEq, Eq)]
pub struct AssetInfo {
    /// The asset's file name.
    pub name: String,
    /// The digest that GitHub reports for the asset, such as `sha256:...`.
    pub digest: Option<String>,
    /// Where the asset can be downloaded from.
    pub browser_download_url: String,
}

/// What the update logic reads of a release, in the order GitHub lists them.
#[derive(Debug, Clone, PartialEq, Eq)]
pub struct ReleaseInfo {
    /// The release's tag, such as `v1.2.3` or `2026.07.04`.
    pub tag_name: String,
    /// Whether GitHub marks the release as a prerelease.
    pub prerelease: bool,
    /// The release's assets.
    pub assets: Vec<AssetInfo>,
}

/// The asset chosen for download and the digest it must have.
#[derive(Debug, Clone, PartialEq, Eq)]
pub struct DownloadTarget {
    /// Index of the chosen release in the list.
    pub release_index: usize,
    /// Index of the chosen asset among that release's assets.
    pub asset_index: usize,
    /// Where to download the asset from.
    pub url: String,
    /// The lower-case hexadecimal SHA-256 digest the download must have.
    pub expected_hash: String,
}

/// An asset as plain values: name, digest, download URL.
pub type AssetData = (Seq<char>, Option<Seq<char>>, Seq<char>);

/// A release as plain values: tag, prerelease flag, assets.
pub type ReleaseData = (Seq<char>, bool, Seq<AssetData>);

/// The plain values of an asset.
pub open spec fn asset_data(a: AssetInfo) -> AssetData {
    (a.name@, opt_text(a.digest), a.browser_download_url@)
}

/// The plain values of a release.
pub open spec fn release_data(r: ReleaseInfo) -> ReleaseData {
    (r.tag_name@, r.prerelease, r.assets@.map_values(|a: AssetInfo| asset_data(a)))
}

/// The plain values of a list of releases.
pub open spec fn release_list_data(rs: Seq<ReleaseInfo>) -> Seq<ReleaseData> {
    rs.map_values(|r: ReleaseInfo| release_data(r))
}

/// What `serde_json::from_slice` makes of `json` as a list of octocrab
/// `Release`s: one entry per element of the JSON array, in the array's order,
/// each taken as its tag, prerelease flag and assets (name, digest, download
/// URL, in their array's order); `None` when the bytes are not such a list.
pub uninterp spec fn github_release_list(json: Seq<u8>) -> Option<Seq<ReleaseData>>;

/// `serde_json::from_slice::<Vec<octocrab::models::repos::Release>>`, each
/// release converted field for field to a `ReleaseInfo`, keeping the order in
/// which serde's `Vec` visitor pushes the array's elements. The result is named by
/// `github_release_list`; nothing more is stated of the JSON grammar or of
/// octocrab's field mapping.
#[verifier::external_body]
fn parse_release_list(json: &[u8]) -> (res: Option<Vec<ReleaseInfo>>)
    ensures
        res is Some <==> github_release_list(json@) is Some,
        res matches Some(rs) ==> github_release_list(json@)->Some_0 == release_list_data(rs@),
{
    match serde_json::from_slice::<Vec<Release>>(json) {
        Ok(list) => Some(list.into_iter().map(|r| ReleaseInfo {
            tag_name: r.tag_name,
            prerelease: r.prerelease,
            assets: r.assets.into_iter().map(|a| AssetInfo {
                name: a.name,
                digest: a.digest,
                browser_download_url: a.browser_download_url.to_string(),
            }).collect(),
        }).collect()),
        Err(_) => None,
    }
}

/// Reads the release list that GitHub sent: `UnreadableReleaseList` when the
/// bytes are not a list of releases.
pub fn releases_from_response(json: &[u8]) -> (res: Result<Vec<ReleaseInfo>, UpdateError>)
    ensures
        match github_release_list(json@) {
            Some(l) => res matches Ok(rs) && release_list_data(rs@) == l,
            None => res == Err::<Vec<ReleaseInfo>, UpdateError>(UpdateError::UnreadableReleaseList),
        },
{
    match parse_release_list(json) {
        Some(rs) => Ok(rs),
        None => Err(UpdateError::UnreadableReleaseList),
    }
}

/// What to do with the cached release list.
#[derive(Debug, Clone, PartialEq, Eq)]
pub enum CacheDecision {
    /// The cache is fresh and readable: use these releases.
    Use(Vec<ReleaseInfo>),
    /// The cache is fresh but unreadable: delete it, then fetch from GitHub.
    DiscardAndFetch,
    /// There is no fresh cache: fetch from GitHub.
    Fetch,
}

/// Whether cached release metadata of this age is fresh.
pub open spec fn is_fresh(age_secs: Option<u64>) -> bool {
    age_secs matches Some(a) && a <= RELEASE_CACHE_TTL_SECS
}

/// Decides on an existing cache file from its age (`None` when it cannot be
/// told) and its bytes (`None` when it cannot be read): a stale cache is
/// fetched again; a fresh one is used when it holds a release list, and is
/// otherwise deleted and fetched again.
pub fn releases_from_cache(age_secs: Option<u64>, cached: Option<&[u8]>) -> (res: CacheDecision)
    ensures
        !is_fresh(age_secs) ==> res == CacheDecision::Fetch,
        is_fresh(age_secs) && cached is None ==> res == CacheDecision::DiscardAndFetch,
        is_fresh(age_secs) && cached is Some ==> match github_release_list(cached->0@) {
            Some(l) => res matches CacheDecision::Use(rs) && release_list_data(rs@) == l,
            None => res == CacheDecision::DiscardAndFetch,
        },
{
    if !cache_is_fresh(age_secs) {
        return CacheDecision::Fetch;
    }
    match cached {
        None => CacheDecision::DiscardAndFetch,
        Some(bytes) => match parse_release_list(bytes) {
            Some(rs) => CacheDecision::Use(rs),
            None => CacheDecision::DiscardAndFetch,
        },
    }
}

/// Whether release `i` is the first release of the list that the channel includes.
pub open spec fn is_first_suitable(rs: Seq<ReleaseInfo>, ut: UpdateType, i: int) -> bool {
    &&& 0 <= i < rs.len()
    &&& ut.includes(rs[i].prerelease)
    &&& forall|k: int| 0 <= k < i ==> !ut.includes(#[trigger] rs[k].prerelease)
}

/// Whether the channel includes no release of the list.
pub open spec fn none_suitable(rs: Seq<ReleaseInfo>, ut: UpdateType) -> bool {
    forall|k: int| 0 <= k < rs.len() ==> !ut.includes(#[trigger] rs[k].prerelease)
}

/// Whether some asset of release `r` is named `name`.
pub open spec fn has_asset_named(r: ReleaseInfo, name: Seq<char>) -> bool {
    exists|j: int| 0 <= j < r.assets@.len() && #[trigger] r.assets@[j].name@ == name
}

/// Whether asset `j` of release `i` is the first asset named `name`, in list
/// order, among the releases that the channel includes.
pub open spec fn is_first_match(
    rs: Seq<ReleaseInfo>,
    ut: UpdateType,
    name: Seq<char>,
    i: int,
    j: int,
) -> bool {
    &&& 0 <= i < rs.len()
    &&& ut.includes(rs[i].prerelease)
    &&& 0 <= j < rs[i].assets@.len()
    &&& rs[i].assets@[j].name@ == name
    &&& forall|k: int|
        0 <= k < i && ut.includes(#[trigger] rs[k].prerelease) ==> !has_asset_named(rs[k], name)
    &&& forall|l: int| 0 <= l < j ==> #[trigger] rs[i].assets@[l].name@ != name
}

/// Whether no release that the channel includes has an asset named `name`.
pub open spec fn no_match(rs: Seq<ReleaseInfo>, ut: UpdateType, name: Seq<char>) -> bool {
    forall|k: int|
        0 <= k < rs.len() && ut.includes(#[trigger] rs[k].prerelease) ==> !has_asset_named(
            rs[k],
            name,
        )
}

/// The index of the first release that the channel includes: any release for
/// `Preview`, the first non-prerelease for `Stable`.
pub fn first_suitable_release(releases: &[ReleaseInfo], update_type: UpdateType) -> (res: Option<
    usize,
>)
    ensures
        match res {
            Some(i) => is_first_suitable(releases@, update_type, i as int),
            None => none_suitable(releases@, update_type),
        },
{
    for i in 0..releases.len()
        invariant
            forall|k: int| 0 <= k < i ==> !update_type.includes(#[trigger] releases@[k].prerelease),
    {
        if !(releases[i].prerelease && update_type == UpdateType::Stable) {
            return Some(i);
        }
    }
    None
}

/// The index of the first asset of `release` named `name`.
fn asset_position(release: &ReleaseInfo, name: &String) -> (res: Option<usize>)
    ensures
        match res {
            Some(j) => j < release.assets@.len() && release.assets@[j as int].name@ == name@
                && forall|l: int| 0 <= l < j ==> #[trigger] release.assets@[l].name@ != name@,
            None => !has_asset_named(*release, name@),
        },
{
    for j in 0..release.assets.len()
        invariant
            forall|l: int| 0 <= l < j ==> #[trigger] release.assets@[l].name@ != name@,
    {
        if release.assets[j].name == *name {
            return Some(j);
        }
    }
    None
}

/// The first asset named `name`, scanning the releases in order and, within a
/// release, its assets in order, skipping the releases the channel does not
/// include.
pub fn find_asset(releases: &[ReleaseInfo], update_type: UpdateType, name: &str) -> (res: Option<
    (usize, usize),
>)
    ensures
        match res {
            Some((i, j)) => is_first_match(releases@, update_type, name@, i as int, j as int),
            None => no_match(releases@, update_type, name@),
        },
{
    let wanted = name.to_owned();
    for i in 0..releases.len()
        invariant
            wanted@ == name@,
            forall|k: int|
                0 <= k < i && update_type.includes(#[trigger] releases@[k].prerelease)
                    ==> !has_asset_named(releases@[k], name@),
    {
        if !(releases[i].prerelease && update_type == UpdateType::Stable) {
            if let Some(j) = asset_position(&releases[i], &wanted) {
                return Some((i, j));
            }
        }
    }
    None
}

/// The semantic version of the first release that the channel includes.
///
/// Only that release is considered: `NoSuitableRelease` when there is none,
/// `InvalidVersion` when its normalized tag is not a semantic version.
pub fn latest_version(releases: &[ReleaseInfo], update_type: UpdateType) -> (res: Result<
    SemVersion,
    UpdateError,
>)
    ensures
        none_suitable(releases@, update_type) ==> res == Err::<SemVersion, UpdateError>(
            UpdateError::NoSuitableRelease,
        ),
        forall|i: int|
            #[trigger] is_first_suitable(releases@, update_type, i) ==> match semver_parse(
                version_text_of_tag(releases@[i].tag_name@),
            ) {
                Ok(p) => res matches Ok(v) && (v.major, v.minor, v.patch, v.pre@, v.build@) == p,
                Err(m) => res matches Err(UpdateError::InvalidVersion { text: t, reason: r }) && t@
                    == version_text_of_tag(releases@[i].tag_name@) && r@ == m,
            },
        forall|i: int|
            #[trigger] is_first_suitable(releases@, update_type, i) ==> (plain_version_numbers(
                version_text_of_tag(releases@[i].tag_name@),
            ) matches Some(n) ==> (res matches Ok(v) && v.major == n.0 && v.minor == n.1 && v.patch
                == n.2 && v.pre@.len() == 0 && v.build@.len() == 0)),
{
    match first_suitable_release(releases, update_type) {
        None => Err(UpdateError::NoSuitableRelease),
        Some(i) => {
            proof {
                assert forall|k: int| #[trigger]
                    is_first_suitable(releases@, update_type, k) implies k == i by {
                    if k < i {
                        assert(!update_type.includes(releases@[k].prerelease));
                    } else if k > i {
                        assert(!update_type.includes(releases@[i as int].prerelease));
                    }
                }
            }
            version_from_tag(releases[i].tag_name.as_str())
        },
    }
}

/// Chooses the asset to download: the first asset named `target_asset_name`
/// among the releases the channel includes, in list order.
///
/// `NoSuitableRelease` when no included release has such an asset;
/// `MissingDigest` when the first such asset has no digest (later ones are not
/// tried); otherwise its download URL and the digest it must have.
pub fn select_download(
    releases: &[ReleaseInfo],
    update_type: UpdateType,
    target_asset_name: &str,
) -> (res: Result<DownloadTarget, UpdateError>)
    ensures
        no_match(releases@, update_type, target_asset_name@) ==> res == Err::<
            DownloadTarget,
            UpdateError,
        >(UpdateError::NoSuitableRelease),
        forall|i: int, j: int|
            #[trigger] is_first_match(releases@, update_type, target_asset_name@, i, j) ==> match releases@[i].assets@[j].digest {
                None => res == Err::<DownloadTarget, UpdateError>(UpdateError::MissingDigest),
                Some(d) => res matches Ok(t) && t.release_index == i && t.asset_index == j
                    && t.url@ == releases@[i].assets@[j].browser_download_url@
                    && t.expected_hash@ == expected_hash_text(d@),
            },
{
    match find_asset(releases, update_type, target_asset_name) {
        None => Err(UpdateError::NoSuitableRelease),
        Some((i, j)) => {
            proof {
                let rs = releases@;
                let name = target_asset_name@;
                assert forall|a: int, b: int| #[trigger]
                    is_first_match(rs, update_type, name, a, b) implies a == i && b == j by {
                    if a < i {
                        assert(rs[a].assets@[b].name@ == name);
                        assert(!has_asset_named(rs[a], name));
                    } else if a > i {
                        assert(rs[i as int].assets@[j as int].name@ == name);
                        assert(!has_asset_named(rs[i as int], name));
                    } else if b < j {
                        assert(rs[i as int].assets@[b].name@ != name);
                    } else if b > j {
                        assert(rs[a].assets@[j as int].name@ != name);
                    }
                }
            }
            let asset = &releases[i].assets[j];
            match &asset.digest {
                None => Err(UpdateError::MissingDigest),
                Some(d) => Ok(
                    DownloadTarget {
                        release_index: i,
                        asset_index: j,
                        url: asset.browser_download_url.clone(),
                        expected_hash: expected_hash(d.as_str()),
                    },
                ),
            }
        },
    }
}

/// The stable channel never picks a prerelease, and the preview channel picks
/// the first release of any non-empty list: so the preview channel's release
/// comes no later than the stable channel's.
pub proof fn lemma_channels_pick_in_order(rs: Seq<ReleaseInfo>, i: int, k: int)
    requires
        is_first_suitable(rs, UpdateType::Preview, i),
        is_first_suitable(rs, UpdateType::Stable, k),
    ensures
        i == 0,
        !rs[k].prerelease,
        i <= k,
{
    if i > 0 {
        assert(UpdateType::Preview.includes(rs[0].prerelease));
    }
}

/// When no release of the list is a prerelease, both channels choose the same
/// release to read the version from and the same asset to download.
pub proof fn lemma_channels_agree_without_prereleases(
    rs: Seq<ReleaseInfo>,
    name: Seq<char>,
    i: int,
    j: int,
)
    requires
        forall|k: int| 0 <= k < rs.len() ==> !(#[trigger] rs[k].prerelease),
    ensures
        is_first_suitable(rs, UpdateType::Stable, i) <==> is_first_suitable(
            rs,
            UpdateType::Preview,
            i,
        ),
        is_first_match(rs, UpdateType::Stable, name, i, j) <==> is_first_match(
            rs,
            UpdateType::Preview,
            name,
            i,
            j,
        ),
        no_match(rs, UpdateType::Stable, name) <==> no_match(rs, UpdateType::Preview, name),
{
}

/// Every asset the stable channel could download, the preview channel could
/// too: if the preview channel finds no asset of that name, neither does the
/// stable channel.
pub proof fn lemma_preview_finds_whatever_stable_finds(rs: Seq<ReleaseInfo>, name: Seq<char>)
    requires
        no_match(rs, UpdateType::Preview, name),
    ensures
        no_match(rs, UpdateType::Stable, name),
{
}

} // verus!
