use reup::{normalize_version_tag, parse_version, version_from_tag, SemVersion, UpdateError};

fn version(major: u64, minor: u64, patch: u64, pre: &str, build: &str) -> SemVersion {
    SemVersion {
        major,
        minor,
        patch,
        pre: pre.to_string(),
        build: build.to_string(),
    }
}

fn invalid(text: &str, reason: &str) -> UpdateError {
    UpdateError::InvalidVersion {
        text: text.to_string(),
        reason: reason.to_string(),
    }
}

#[test]
fn normalization_drops_leading_v_and_zeros() {
    assert_eq!(normalize_version_tag("v2026.07.04"), "2026.7.4");
    assert_eq!(normalize_version_tag("vv01.00.003"), "1.0.3");
    assert_eq!(normalize_version_tag("1.2.3"), "1.2.3");
}

#[test]
fn normalization_keeps_suffix_and_odd_components() {
    assert_eq!(normalize_version_tag("v1.02.3-rc.01+build.007"), "1.2.3-rc.01+build.007");
    assert_eq!(normalize_version_tag("1.x.03"), "1.x.3");
    assert_eq!(normalize_version_tag("1..2"), "1..2");
    assert_eq!(
        normalize_version_tag("99999999999999999999.0.0"),
        "99999999999999999999.0.0"
    );
    assert_eq!(normalize_version_tag(""), "");
}

#[test]
fn numeric_tags_parse_as_versions() {
    assert_eq!(version_from_tag("2026.07.04"), Ok(version(2026, 7, 4, "", "")));
    assert_eq!(version_from_tag("v1.2.3"), Ok(version(1, 2, 3, "", "")));
    assert_eq!(version_from_tag("V0.010.0"), Ok(version(0, 10, 0, "", "")));
}

#[test]
fn tags_are_lowercased_before_parsing() {
    assert_eq!(
        version_from_tag("V1.2.3-Beta.1+Linux"),
        Ok(version(1, 2, 3, "beta.1", "linux"))
    );
}

#[test]
fn malformed_tags_are_invalid_versions() {
    assert_eq!(
        version_from_tag("v2026.07"),
        Err(invalid("2026.7", "unexpected end of input while parsing minor version number"))
    );
    assert_eq!(
        version_from_tag("release-1"),
        Err(invalid(
            "release-1",
            "unexpected character 'r' while parsing major version number"
        ))
    );
    assert_eq!(
        parse_version("1.0.01"),
        Err(invalid("1.0.01", "invalid leading zero in patch version number"))
    );
    assert_eq!(parse_version("1.0.1"), Ok(version(1, 0, 1, "", "")));
}

#[test]
fn normalization_is_idempotent_and_ignores_leading_v() {
    for tag in ["v2026.07.04", "1.x.03-rc.01", "-v1", "vv", "1..02+b", "0001.0002"] {
        let once = normalize_version_tag(tag);
        assert_eq!(normalize_version_tag(&once), once);
        assert_eq!(normalize_version_tag(&format!("v{tag}")), once);
    }
}
