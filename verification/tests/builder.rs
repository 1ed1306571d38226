use reup::{GitHubUpdater, GitHubUpdaterBuilder, GitHubUpdaterBuilderError};

const OWNER: &str = "yt-dlp";
const REPO: &str = "yt-dlp";
const ASSET_LINUX: &str = "yt-dlp_linux";

#[test]
fn builder_requires_owner() {
    let result = GitHubUpdater::builder()
        .repo(REPO)
        .target_asset_name(ASSET_LINUX)
        .build();
    assert_eq!(result, Err(GitHubUpdaterBuilderError::MissingOwner));
}

#[test]
fn builder_requires_repo() {
    let result = GitHubUpdater::builder()
        .owner(OWNER)
        .target_asset_name(ASSET_LINUX)
        .build();
    assert_eq!(result, Err(GitHubUpdaterBuilderError::MissingRepo));
}

#[test]
fn builder_requires_target_asset_name() {
    let result = GitHubUpdater::builder().owner(OWNER).repo(REPO).build();
    assert_eq!(
        result,
        Err(GitHubUpdaterBuilderError::MissingTargetAssetName)
    );
}

#[test]
fn builder_creates_updater_with_all_required_fields() {
    let result = GitHubUpdater::builder()
        .owner(OWNER)
        .repo(REPO)
        .target_asset_name(ASSET_LINUX)
        .build();
    assert!(result.is_ok());
}

#[test]
fn builder_reports_owner_first_when_everything_is_missing() {
    let result = GitHubUpdater::builder().build();
    assert_eq!(result, Err(GitHubUpdaterBuilderError::MissingOwner));
    let result = GitHubUpdater::builder().owner("a").build();
    assert_eq!(result, Err(GitHubUpdaterBuilderError::MissingRepo));
}

#[test]
fn builder_and_new_agree_in_any_order() {
    let built = GitHubUpdater::builder()
        .target_asset_name("my-app.exe")
        .repo("old-repo")
        .owner("example")
        .repo("my-app")
        .build()
        .expect("all fields are set");
    assert_eq!(built, GitHubUpdater::new("example", "my-app", "my-app.exe"));
    assert_eq!(built.owner(), "example");
    assert_eq!(built.repo(), "my-app");
    assert_eq!(built.target_asset_name(), "my-app.exe");
}

#[test]
fn default_builder_is_empty() {
    assert_eq!(GitHubUpdaterBuilder::default(), GitHubUpdater::builder());
}

#[test]
fn builder_error_messages() {
    assert_eq!(
        GitHubUpdaterBuilderError::MissingOwner.message(),
        "GitHub repository owner was not provided"
    );
    assert_eq!(
        GitHubUpdaterBuilderError::MissingRepo.message(),
        "GitHub repository name was not provided"
    );
    assert_eq!(
        GitHubUpdaterBuilderError::MissingTargetAssetName.message(),
        "release asset filename was not provided"
    );
}
