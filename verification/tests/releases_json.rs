use reup::{
    releases_from_cache, releases_from_response, AssetInfo, CacheDecision, ReleaseInfo, UpdateError,
};

fn asset_json(name: &str, digest: Option<&str>) -> String {
    let digest = match digest {
        Some(d) => format!("\"{d}\""),
        None => "null".to_string(),
    };
    format!(
        r#"{{"url":"https://api.github.com/repos/o/r/releases/assets/1",
        "browser_download_url":"https://github.com/o/r/releases/download/v1/{name}",
        "id":1,"node_id":"A","name":"{name}","label":null,"state":"uploaded",
        "content_type":"application/octet-stream","size":3,"digest":{digest},
        "download_count":0,"created_at":"2026-07-04T00:00:00Z",
        "updated_at":"2026-07-04T00:00:00Z"}}"#
    )
}

fn release_json(tag: &str, prerelease: bool, assets: &[String]) -> String {
    format!(
        r#"{{"url":"https://api.github.com/repos/o/r/releases/1",
        "html_url":"https://github.com/o/r/releases/tag/{tag}",
        "assets_url":"https://api.github.com/repos/o/r/releases/1/assets",
        "upload_url":"https://uploads.github.com/repos/o/r/releases/1/assets",
        "id":1,"node_id":"R","tag_name":"{tag}","target_commitish":"main",
        "draft":false,"prerelease":{prerelease},"assets":[{}]}}"#,
        assets.join(",")
    )
}

fn sample_json() -> String {
    format!(
        "[{},{}]",
        release_json("v2.0.0-rc.1", true, &[asset_json("app-linux", Some("sha256:AB"))]),
        release_json("v1.0.0", false, &[asset_json("app-linux", None)])
    )
}

fn sample_infos() -> Vec<ReleaseInfo> {
    vec![
        ReleaseInfo {
            tag_name: "v2.0.0-rc.1".to_string(),
            prerelease: true,
            assets: vec![AssetInfo {
                name: "app-linux".to_string(),
                digest: Some("sha256:AB".to_string()),
                browser_download_url: "https://github.com/o/r/releases/download/v1/app-linux"
                    .to_string(),
            }],
        },
        ReleaseInfo {
            tag_name: "v1.0.0".to_string(),
            prerelease: false,
            assets: vec![AssetInfo {
                name: "app-linux".to_string(),
                digest: None,
                browser_download_url: "https://github.com/o/r/releases/download/v1/app-linux"
                    .to_string(),
            }],
        },
    ]
}

#[test]
fn github_reply_is_read_field_for_field() {
    assert_eq!(releases_from_response(sample_json().as_bytes()), Ok(sample_infos()));
    assert_eq!(releases_from_response(b"[]"), Ok(vec![]));
}

#[test]
fn unreadable_reply_is_an_error() {
    assert_eq!(
        releases_from_response(b"{\"message\":\"Not Found\"}"),
        Err(UpdateError::UnreadableReleaseList)
    );
    assert_eq!(releases_from_response(b""), Err(UpdateError::UnreadableReleaseList));
}

#[test]
fn fresh_readable_cache_is_used() {
    let json = sample_json();
    assert_eq!(
        releases_from_cache(Some(21600), Some(json.as_bytes())),
        CacheDecision::Use(sample_infos())
    );
}

#[test]
fn fresh_unreadable_cache_is_discarded() {
    assert_eq!(
        releases_from_cache(Some(0), Some(b"not json")),
        CacheDecision::DiscardAndFetch
    );
    assert_eq!(releases_from_cache(Some(0), None), CacheDecision::DiscardAndFetch);
}

#[test]
fn stale_cache_is_fetched_again() {
    let json = sample_json();
    assert_eq!(
        releases_from_cache(Some(21601), Some(json.as_bytes())),
        CacheDecision::Fetch
    );
    assert_eq!(releases_from_cache(None, Some(json.as_bytes())), CacheDecision::Fetch);
}
