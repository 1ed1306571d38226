use vstd::prelude::*;

verus! {

/// The configuration of a [`GitHubUpdater`], as plain text.
pub ghost struct UpdaterConfig {
    pub owner: Seq<char>,
    pub repo: Seq<char>,
    pub target_asset_name: Seq<char>,
}

/// The fields set so far on a [`GitHubUpdaterBuilder`].
pub ghost struct BuilderFields {
    pub owner: Option<Seq<char>>,
    pub repo: Option<Seq<char>>,
    pub target_asset_name: Option<Seq<char>>,
}

impl BuilderFields {
    /// These fields with the owner set to `o`.
    pub open spec fn with_owner(self, o: Seq<char>) -> BuilderFields {
        BuilderFields { owner: Some(o), ..self }
    }

    /// These fields with the repository set to `r`.
    pub open spec fn with_repo(self, r: Seq<char>) -> BuilderFields {
        BuilderFields { repo: Some(r), ..self }
    }

    /// These fields with the asset name set to `t`.
    pub open spec fn with_target_asset_name(self, t: Seq<char>) -> BuilderFields {
        BuilderFields { target_asset_name: Some(t), ..self }
    }
}

/// How long cached release metadata stays fresh, in seconds (six hours).
pub const RELEASE_CACHE_TTL_SECS: u64 = 6 * 60 * 60;

/// The text of an optional string.
pub open spec fn opt_text(s: Option<String>) -> Option<Seq<char>> {
    match s {
        Some(t) => Some(t@),
        None => None,
    }
}

/// Downloads update artifacts and versions from a GitHub repository's releases.
///
/// `target_asset_name` must exactly match the name of the release asset to
/// download. The first suitable release returned by GitHub is used.
#[derive(Debug, Clone, PartialEq, Eq)]
pub struct GitHubUpdater {
    owner: String,
    repo: String,
    target_asset_name: String,
}

impl View for GitHubUpdater {
    type V = UpdaterConfig;

    closed spec fn view(&self) -> UpdaterConfig {
        UpdaterConfig {
            owner: self.owner@,
            repo: self.repo@,
            target_asset_name: self.target_asset_name@,
        }
    }
}

/// Builder for constructing a [`GitHubUpdater`].
#[derive(Debug, Clone, PartialEq, Eq)]
pub struct GitHubUpdaterBuilder {
    owner: Option<String>,
    repo: Option<String>,
    target_asset_name: Option<String>,
}

impl View for GitHubUpdaterBuilder {
    type V = BuilderFields;

    closed spec fn view(&self) -> BuilderFields {
        BuilderFields {
            owner: opt_text(self.owner),
            repo: opt_text(self.repo),
            target_asset_name: opt_text(self.target_asset_name),
        }
    }
}

/// Errors returned when required [`GitHubUpdaterBuilder`] fields are missing.
#[derive(Debug, Clone, Copy, PartialEq, Eq, Structural)]
pub enum GitHubUpdaterBuilderError {
    /// The GitHub repository owner or organization was not provided.
    MissingOwner,
    /// The GitHub repository name was not provided.
    MissingRepo,
    /// The release asset filename to download was not provided.
    MissingTargetAssetName,
}

/// What building from the given fields gives: the first missing field, in
/// owner, repository, asset-name order, or the configuration they make up.
pub open spec fn build_outcome(b: BuilderFields) -> Result<UpdaterConfig, GitHubUpdaterBuilderError> {
    match (b.owner, b.repo, b.target_asset_name) {
        (None, _, _) => Err(GitHubUpdaterBuilderError::MissingOwner),
        (Some(_), None, _) => Err(GitHubUpdaterBuilderError::MissingRepo),
        (Some(_), Some(_), None) => Err(GitHubUpdaterBuilderError::MissingTargetAssetName),
        (Some(o), Some(r), Some(t)) => Ok(UpdaterConfig { owner: o, repo: r, target_asset_name: t }),
    }
}

impl GitHubUpdater {
    /// Creates an updater for a repository and release asset filename.
    ///
    /// This constructor only stores configuration; it does not contact GitHub.
    pub fn new(owner: &str, repo: &str, target_asset_name: &str) -> (res: Self)
        ensures
            res@ == (UpdaterConfig {
                owner: owner@,
                repo: repo@,
                target_asset_name: target_asset_name@,
            }),
    {
        GitHubUpdater {
            owner: owner.to_owned(),
            repo: repo.to_owned(),
            target_asset_name: target_asset_name.to_owned(),
        }
    }

    /// Returns an empty builder for constructing a [`GitHubUpdater`].
    pub fn builder() -> (res: GitHubUpdaterBuilder)
        ensures
            res@ == (BuilderFields { owner: None, repo: None, target_asset_name: None }),
    {
        GitHubUpdaterBuilder { owner: None, repo: None, target_asset_name: None }
    }

    /// Returns the configured repository owner or organization.
    pub fn owner(&self) -> (res: &str)
        ensures
            res@ == self@.owner,
    {
        self.owner.as_str()
    }

    /// Returns the configured repository name.
    pub fn repo(&self) -> (res: &str)
        ensures
            res@ == self@.repo,
    {
        self.repo.as_str()
    }

    /// The file name under which the releases of this repository are cached:
    /// `{owner}_{repo}_releases.json`.
    pub fn cache_file_name(&self) -> (res: String)
        ensures
            res@ == self@.owner + "_"@ + self@.repo + "_releases.json"@,
    {
        let mut name = self.owner.clone();
        name.append("_");
        name.append(self.repo.as_str());
        name.append("_releases.json");
        name
    }

    /// The GitHub API address that lists this repository's releases:
    /// `https://api.github.com/repos/{owner}/{repo}/releases`.
    pub fn releases_url(&self) -> (res: String)
        ensures
            res@ == "https://api.github.com/repos/"@ + self@.owner + "/"@ + self@.repo
                + "/releases"@,
    {
        let mut url = "https://api.github.com/repos/".to_owned();
        url.append(self.owner.as_str());
        url.append("/");
        url.append(self.repo.as_str());
        url.append("/releases");
        url
    }

    /// The user agent sent to GitHub: `{repo}-updater`.
    pub fn user_agent(&self) -> (res: String)
        ensures
            res@ == self@.repo + "-updater"@,
    {
        let mut agent = self.repo.clone();
        agent.append("-updater");
        agent
    }

    /// Returns the configured release asset filename to download.
    pub fn target_asset_name(&self) -> (res: &str)
        ensures
            res@ == self@.target_asset_name,
    {
        self.target_asset_name.as_str()
    }
}

impl Default for GitHubUpdaterBuilder {
    fn default() -> (res: Self)
        ensures
            res@ == (BuilderFields { owner: None, repo: None, target_asset_name: None }),
    {
        GitHubUpdaterBuilder { owner: None, repo: None, target_asset_name: None }
    }
}

impl GitHubUpdaterBuilder {
    /// Sets the repository owner or organization (required before [`Self::build`]).
    pub fn owner(self, owner: &str) -> (res: Self)
        ensures
            res@ == self@.with_owner(owner@),
    {
        GitHubUpdaterBuilder { owner: Some(owner.to_owned()), ..self }
    }

    /// Sets the repository name (required before [`Self::build`]).
    pub fn repo(self, repo: &str) -> (res: Self)
        ensures
            res@ == self@.with_repo(repo@),
    {
        GitHubUpdaterBuilder { repo: Some(repo.to_owned()), ..self }
    }

    /// Sets the exact release asset filename to download (required before
    /// [`Self::build`]).
    pub fn target_asset_name(self, target_asset_name: &str) -> (res: Self)
        ensures
            res@ == self@.with_target_asset_name(target_asset_name@),
    {
        GitHubUpdaterBuilder { target_asset_name: Some(target_asset_name.to_owned()), ..self }
    }

    /// Builds a [`GitHubUpdater`] if all required fields are set; otherwise
    /// returns the first missing-field error in owner, repository, and asset
    /// name order.
    pub fn build(self) -> (res: Result<GitHubUpdater, GitHubUpdaterBuilderError>)
        ensures
            match build_outcome(self@) {
                Ok(c) => res matches Ok(u) && u@ == c,
                Err(e) => res == Err::<GitHubUpdater, GitHubUpdaterBuilderError>(e),
            },
            self@.owner is None ==> res == Err::<GitHubUpdater, GitHubUpdaterBuilderError>(
                GitHubUpdaterBuilderError::MissingOwner,
            ),
            self@.owner is Some && self@.repo is None ==> res == Err::<
                GitHubUpdater,
                GitHubUpdaterBuilderError,
            >(GitHubUpdaterBuilderError::MissingRepo),
            self@.owner is Some && self@.repo is Some && self@.target_asset_name is None ==> res
                == Err::<GitHubUpdater, GitHubUpdaterBuilderError>(
                GitHubUpdaterBuilderError::MissingTargetAssetName,
            ),
            self@.owner is Some && self@.repo is Some && self@.target_asset_name is Some ==> (res matches Ok(u)
                && Some(u@.owner) == self@.owner && Some(u@.repo) == self@.repo && Some(
                u@.target_asset_name,
            ) == self@.target_asset_name),
    {
        let owner = match self.owner {
            Some(o) => o,
            None => return Err(GitHubUpdaterBuilderError::MissingOwner),
        };
        let repo = match self.repo {
            Some(r) => r,
            None => return Err(GitHubUpdaterBuilderError::MissingRepo),
        };
        let target_asset_name = match self.target_asset_name {
            Some(t) => t,
            None => return Err(GitHubUpdaterBuilderError::MissingTargetAssetName),
        };
        Ok(GitHubUpdater { owner, repo, target_asset_name })
    }
}

impl GitHubUpdaterBuilderError {
    /// The error's message.
    pub fn message(&self) -> (res: &'static str)
        ensures
            *self == GitHubUpdaterBuilderError::MissingOwner ==> res@
                == "GitHub repository owner was not provided"@,
            *self == GitHubUpdaterBuilderError::MissingRepo ==> res@
                == "GitHub repository name was not provided"@,
            *self == GitHubUpdaterBuilderError::MissingTargetAssetName ==> res@
                == "release asset filename was not provided"@,
    {
        match self {
            GitHubUpdaterBuilderError::MissingOwner => "GitHub repository owner was not provided",
            GitHubUpdaterBuilderError::MissingRepo => "GitHub repository name was not provided",
            GitHubUpdaterBuilderError::MissingTargetAssetName => "release asset filename was not provided",
        }
    }
}

/// Whether cached release metadata of the given age (in whole seconds; `None`
/// when the age cannot be told) is still fresh: at most six hours old.
pub fn cache_is_fresh(age_secs: Option<u64>) -> (res: bool)
    ensures
        res == (age_secs matches Some(a) && a <= RELEASE_CACHE_TTL_SECS),
{
    match age_secs {
        Some(a) => a <= RELEASE_CACHE_TTL_SECS,
        None => false,
    }
}

/// Setting the owner, the repository and the asset name, whatever was set
/// before and in this order, makes `build` succeed with exactly those values,
/// which is the configuration that `GitHubUpdater::new` makes from them.
pub proof fn lemma_build_after_setting_all(
    b: BuilderFields,
    owner: Seq<char>,
    repo: Seq<char>,
    target_asset_name: Seq<char>,
)
    ensures
        build_outcome(b.with_owner(owner).with_repo(repo).with_target_asset_name(target_asset_name))
            == Ok::<UpdaterConfig, GitHubUpdaterBuilderError>(
            UpdaterConfig { owner, repo, target_asset_name },
        ),
{
}

/// Setters of different fields commute, and a later setting of the same
/// field replaces an earlier one; so the order of the builder calls does not
/// change what `build` gives.
pub proof fn lemma_setters_commute_and_overwrite(
    b: BuilderFields,
    o: Seq<char>,
    o2: Seq<char>,
    r: Seq<char>,
    r2: Seq<char>,
    t: Seq<char>,
    t2: Seq<char>,
)
    ensures
        b.with_owner(o).with_repo(r) == b.with_repo(r).with_owner(o),
        b.with_owner(o).with_target_asset_name(t) == b.with_target_asset_name(t).with_owner(o),
        b.with_repo(r).with_target_asset_name(t) == b.with_target_asset_name(t).with_repo(r),
        b.with_owner(o).with_owner(o2) == b.with_owner(o2),
        b.with_repo(r).with_repo(r2) == b.with_repo(r2),
        b.with_target_asset_name(t).with_target_asset_name(t2) == b.with_target_asset_name(t2),
{
}

/// `build` reports the first missing field in owner, repository, asset-name
/// order: a missing owner whatever else is set, then a missing repository
/// whatever the asset name, then a missing asset name; with all three set it
/// gives exactly those values.
pub proof fn lemma_build_reports_first_missing(b: BuilderFields)
    ensures
        b.owner is None ==> build_outcome(b) == Err::<UpdaterConfig, GitHubUpdaterBuilderError>(
            GitHubUpdaterBuilderError::MissingOwner,
        ),
        b.owner is Some && b.repo is None ==> build_outcome(b) == Err::<
            UpdaterConfig,
            GitHubUpdaterBuilderError,
        >(GitHubUpdaterBuilderError::MissingRepo),
        b.owner is Some && b.repo is Some && b.target_asset_name is None ==> build_outcome(b)
            == Err::<UpdaterConfig, GitHubUpdaterBuilderError>(
            GitHubUpdaterBuilderError::MissingTargetAssetName,
        ),
        b.owner is Some && b.repo is Some && b.target_asset_name is Some ==> (build_outcome(b) matches Ok(c)
            && Some(c.owner) == b.owner && Some(c.repo) == b.repo && Some(c.target_asset_name)
            == b.target_asset_name),
{
}

/// `build` succeeds exactly when all three fields are set.
pub proof fn lemma_build_succeeds_iff_complete(b: BuilderFields)
    ensures
        build_outcome(b) is Ok <==> (b.owner is Some && b.repo is Some && b.target_asset_name is Some),
{
}

} // verus!
