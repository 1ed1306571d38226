use reup::{cache_is_fresh, GitHubUpdater, UpdateType, RELEASE_CACHE_TTL_SECS};

#[test]
fn update_type_variants_are_distinct() {
    assert_ne!(UpdateType::Stable, UpdateType::Preview);
}

#[test]
fn cache_names_follow_the_repository() {
    let updater = GitHubUpdater::new("yt-dlp", "yt-dlp", "yt-dlp_linux");
    assert_eq!(updater.cache_file_name(), "yt-dlp_yt-dlp_releases.json");
    assert_eq!(
        updater.releases_url(),
        "https://api.github.com/repos/yt-dlp/yt-dlp/releases"
    );
    assert_eq!(updater.user_agent(), "yt-dlp-updater");
}

#[test]
fn cache_stays_fresh_for_six_hours() {
    assert_eq!(RELEASE_CACHE_TTL_SECS, 21600);
    assert!(cache_is_fresh(Some(0)));
    assert!(cache_is_fresh(Some(21600)));
    assert!(!cache_is_fresh(Some(21601)));
    assert!(!cache_is_fresh(None));
}
