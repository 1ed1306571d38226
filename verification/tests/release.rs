use reup::{
    find_asset, first_suitable_release, latest_version, select_download, AssetInfo, DownloadTarget,
    ReleaseInfo, SemVersion, UpdateError, UpdateType,
};

fn asset(name: &str, digest: Option<&str>) -> AssetInfo {
    AssetInfo {
        name: name.to_string(),
        digest: digest.map(|d| d.to_string()),
        browser_download_url: format!("https://example.com/{name}"),
    }
}

fn release(tag: &str, prerelease: bool, assets: Vec<AssetInfo>) -> ReleaseInfo {
    ReleaseInfo {
        tag_name: tag.to_string(),
        prerelease,
        assets,
    }
}

fn sample() -> Vec<ReleaseInfo> {
    vec![
        release("v3.0.0-beta.1", true, vec![asset("app-linux", Some("sha256:BBBB"))]),
        release("v2.0.0", false, vec![asset("app-macos", Some("sha256:cccc"))]),
        release(
            "v1.0.0",
            false,
            vec![
                asset("app-windows.exe", Some("sha256:dddd")),
                asset("app-linux", Some("SHA256:AAAA")),
            ],
        ),
    ]
}

#[test]
fn stable_skips_prereleases() {
    let releases = sample();
    assert_eq!(first_suitable_release(&releases, UpdateType::Stable), Some(1));
    assert_eq!(first_suitable_release(&releases, UpdateType::Preview), Some(0));
    assert_eq!(first_suitable_release(&[], UpdateType::Preview), None);
}

#[test]
fn latest_version_per_channel() {
    let releases = sample();
    assert_eq!(
        latest_version(&releases, UpdateType::Stable),
        Ok(SemVersion {
            major: 2,
            minor: 0,
            patch: 0,
            pre: String::new(),
            build: String::new()
        })
    );
    assert_eq!(
        latest_version(&releases, UpdateType::Preview),
        Ok(SemVersion {
            major: 3,
            minor: 0,
            patch: 0,
            pre: "beta.1".to_string(),
            build: String::new()
        })
    );
}

#[test]
fn latest_version_without_suitable_release() {
    let releases = vec![release("v1.0.0-rc.1", true, vec![])];
    assert_eq!(
        latest_version(&releases, UpdateType::Stable),
        Err(UpdateError::NoSuitableRelease)
    );
    assert_eq!(latest_version(&[], UpdateType::Preview), Err(UpdateError::NoSuitableRelease));
}

#[test]
fn latest_version_uses_only_the_first_suitable_release() {
    let releases = vec![
        release("nightly", false, vec![]),
        release("v1.0.0", false, vec![]),
    ];
    assert_eq!(
        latest_version(&releases, UpdateType::Stable),
        Err(UpdateError::InvalidVersion {
            text: "nightly".to_string(),
            reason: "unexpected character 'n' while parsing major version number".to_string(),
        })
    );
}

#[test]
fn download_picks_first_release_with_the_asset() {
    let releases = sample();
    assert_eq!(find_asset(&releases, UpdateType::Stable, "app-linux"), Some((2, 1)));
    assert_eq!(find_asset(&releases, UpdateType::Preview, "app-linux"), Some((0, 0)));
    assert_eq!(find_asset(&releases, UpdateType::Stable, "app-bsd"), None);
    assert_eq!(
        select_download(&releases, UpdateType::Stable, "app-linux"),
        Ok(DownloadTarget {
            release_index: 2,
            asset_index: 1,
            url: "https://example.com/app-linux".to_string(),
            expected_hash: "aaaa".to_string(),
        })
    );
    assert_eq!(
        select_download(&releases, UpdateType::Preview, "app-linux"),
        Ok(DownloadTarget {
            release_index: 0,
            asset_index: 0,
            url: "https://example.com/app-linux".to_string(),
            expected_hash: "bbbb".to_string(),
        })
    );
}

#[test]
fn download_without_matching_asset() {
    let releases = sample();
    assert_eq!(
        select_download(&releases, UpdateType::Stable, "app-bsd"),
        Err(UpdateError::NoSuitableRelease)
    );
    assert_eq!(
        select_download(&releases, UpdateType::Stable, "App-Linux"),
        Err(UpdateError::NoSuitableRelease)
    );
}

#[test]
fn download_needs_a_digest_on_the_first_match() {
    let releases = vec![
        release("v2.0.0", false, vec![asset("app", None)]),
        release("v1.0.0", false, vec![asset("app", Some("sha256:abcd"))]),
    ];
    assert_eq!(
        select_download(&releases, UpdateType::Stable, "app"),
        Err(UpdateError::MissingDigest)
    );
}

#[test]
fn channels_agree_without_prereleases() {
    let releases = vec![
        release("v2.0.0", false, vec![asset("app-macos", Some("sha256:cccc"))]),
        release("v1.0.0", false, vec![asset("app-linux", Some("sha256:aaaa"))]),
    ];
    assert_eq!(
        latest_version(&releases, UpdateType::Stable),
        latest_version(&releases, UpdateType::Preview)
    );
    assert_eq!(
        select_download(&releases, UpdateType::Stable, "app-linux"),
        select_download(&releases, UpdateType::Preview, "app-linux")
    );
}

#[test]
fn latest_stable_calendar_tag_is_parseable() {
    let releases = vec![
        release("2026.08.01.nightly-rc", true, vec![]),
        release("2026.07.04", false, vec![asset("yt-dlp_linux", Some("sha256:aa"))]),
        release("2026.06.30", false, vec![]),
    ];
    assert_eq!(
        latest_version(&releases, UpdateType::Stable),
        Ok(SemVersion {
            major: 2026,
            minor: 7,
            patch: 4,
            pre: String::new(),
            build: String::new()
        })
    );
}
