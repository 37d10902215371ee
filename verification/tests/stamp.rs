use opensovd::stamp::{build_date, channel_suffix, commit_sha, git_output, is_known_channel, release_channel, stamped_version};

#[test]
fn stable_is_the_only_unsuffixed_channel() {
    assert_eq!(channel_suffix("stable"), "");
    assert_eq!(channel_suffix("nightly"), "-nightly");
    assert_eq!(channel_suffix("dev"), "-dev");
}

#[test]
fn unknown_channel_is_not_known() {
    assert!(!is_known_channel("beta"));
    assert!(is_known_channel("stable"));
    assert!(is_known_channel("dev"));
}

#[test]
fn channel_defaults_to_dev() {
    assert_eq!(release_channel(None), "dev");
    assert_eq!(release_channel(Some("")), "dev");
    assert_eq!(release_channel(Some("nightly")), "nightly");
}

#[test]
fn version_carries_the_channel_suffix() {
    assert_eq!(stamped_version("0.1.1", "dev"), "0.1.1-dev");
    assert_eq!(stamped_version("0.1.1", "nightly"), "0.1.1-nightly");
    assert_eq!(stamped_version("0.1.1", "stable"), "0.1.1");
}

#[test]
fn commit_prefers_configured_then_git_then_unknown() {
    assert_eq!(commit_sha(Some("abc"), Some("def".to_string())), "abc");
    assert_eq!(commit_sha(Some(""), Some("def".to_string())), "def");
    assert_eq!(commit_sha(None, None), "unknown");
}

#[test]
fn git_output_is_trimmed_and_empty_is_none() {
    assert_eq!(git_output(true, b"  v1.2-3-gabc\n"), Some("v1.2-3-gabc".to_string()));
    assert_eq!(git_output(true, b" \n\t"), None);
    assert_eq!(git_output(false, b"v1"), None);
}

#[test]
fn build_date_formats_the_timestamp() {
    assert_eq!(build_date(Some("0"), None), "1970-01-01");
    assert_eq!(build_date(Some("1700000000"), None), "2023-11-14");
    assert_eq!(build_date(Some("x"), Some("86400")), "1970-01-02");
    assert_eq!(build_date(None, Some("-86400")), "1969-12-31");
    assert_eq!(build_date(None, None), "unknown");
    assert_eq!(build_date(Some("99999999999999"), None), "unknown");
    assert_eq!(build_date(Some("-62167219200"), None), "0000-01-01");
    assert_eq!(build_date(Some("-62198755200"), None), "-0001-01-01");
}
