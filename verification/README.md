# reup

Update helpers for desktop applications that publish their builds as GitHub
releases, written in Verus.

- `src/` is the verified library: the updater configuration and its builder,
  the reading of GitHub's release list and the decision on the release cache,
  the choice of release and asset per channel (`Stable` skips prereleases),
  the normalization of release tags into semantic versions, the naming of the
  release cache, and the SHA-256 check of a downloaded asset.
- `app/` holds what Verus does not see: the asynchronous `UpdateProvider`
  trait and its implementation for `GitHubUpdater`, which read and write the
  cache file, fetch the release list, stream the asset to disk and report
  progress, and the
  `Display` forms of the library's errors.
- `tests/` runs the library on concrete values.
