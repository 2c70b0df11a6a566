use ignitero_launcher::types::UpdateCache;
use ignitero_launcher::update_checker::{
    compare_versions, evaluate_cached_update, evaluate_release,
};

#[test]
fn test_compare_versions() {
    assert!(!compare_versions("0.1.13", "0.1.13"));
    assert!(compare_versions("0.1.13", "0.1.14"));
    assert!(compare_versions("0.1.13", "0.2.0"));
    assert!(compare_versions("0.1.13", "1.0.0"));
    assert!(!compare_versions("0.2.0", "0.1.13"));
}

#[test]
fn test_compare_versions_missing_components() {
    assert!(compare_versions("1.2", "1.2.1"));
    assert!(!compare_versions("1.2.0", "1.2"));
    assert!(compare_versions("", "0.0.1"));
    assert!(!compare_versions("", ""));
}

#[test]
fn test_evaluate_cached_update_fresh() {
    let cache = UpdateCache {
        last_checked: Some(1_000_000),
        latest_version: Some("0.2.0".to_string()),
        html_url: Some("https://github.com/owayo/ignitero-launcher/releases".to_string()),
        dismissed_version: None,
    };
    // One hour after the check: the cached answer is used.
    let r = evaluate_cached_update(&cache, "0.1.13", 1_000_000 + 3600).expect("fresh");
    assert!(r.has_update);
    assert_eq!(r.current_version, "0.1.13");
    assert_eq!(r.latest_version, Some("0.2.0".to_string()));

    // The same cache with the version dismissed reports no update.
    let dismissed = UpdateCache {
        dismissed_version: Some("0.2.0".to_string()),
        ..cache
    };
    let r = evaluate_cached_update(&dismissed, "0.1.13", 1_000_000 + 3600).expect("fresh");
    assert!(!r.has_update);
}

#[test]
fn test_evaluate_cached_update_stale_or_absent() {
    let empty = UpdateCache {
        last_checked: None,
        latest_version: None,
        html_url: None,
        dismissed_version: None,
    };
    assert!(evaluate_cached_update(&empty, "0.1.13", 1_000_000).is_none());

    let cache = UpdateCache {
        last_checked: Some(1_000_000),
        latest_version: Some("0.2.0".to_string()),
        html_url: None,
        dismissed_version: None,
    };
    // Thirteen hours later the record is stale.
    assert!(evaluate_cached_update(&cache, "0.1.13", 1_000_000 + 13 * 3600).is_none());
    // A clock before the record means a fetch, too.
    assert!(evaluate_cached_update(&cache, "0.1.13", 999_999).is_none());
    // Eleven hours later it is still fresh.
    assert!(evaluate_cached_update(&cache, "0.1.13", 1_000_000 + 11 * 3600).is_some());
}

#[test]
fn test_evaluate_release_accepts_project_release() {
    let r = evaluate_release(
        "0.1.13",
        "v0.2.0",
        "https://github.com/owayo/ignitero-launcher/releases/tag/v0.2.0",
        false,
    )
    .expect("valid release");
    assert!(r.has_update);
    assert_eq!(r.current_version, "0.1.13");
    assert_eq!(r.latest_version, Some("0.2.0".to_string()));
    assert_eq!(
        r.html_url,
        Some("https://github.com/owayo/ignitero-launcher/releases/tag/v0.2.0".to_string())
    );
}

#[test]
fn test_evaluate_release_rejects_foreign_url() {
    let r = evaluate_release("0.1.13", "v0.2.0", "https://example.com/x", false);
    let e = r.expect_err("foreign URL must be rejected");
    assert!(e.contains("Invalid release URL"));
    assert!(e.contains("https://example.com/x"));
}

#[test]
fn test_evaluate_release_ignores_prerelease() {
    let r = evaluate_release(
        "0.1.13",
        "v0.2.0-rc1",
        "https://github.com/owayo/ignitero-launcher/releases/tag/v0.2.0-rc1",
        true,
    )
    .expect("prerelease is not an error");
    assert!(!r.has_update);
    assert!(r.latest_version.is_none());
    assert!(r.html_url.is_none());
}

#[test]
fn test_evaluate_release_same_version() {
    let r = evaluate_release(
        "0.2.0",
        "v0.2.0",
        "https://github.com/owayo/ignitero-launcher/releases/tag/v0.2.0",
        false,
    )
    .expect("valid release");
    assert!(!r.has_update);
}

#[test]
fn test_evaluate_release_strips_leading_v() {
    let r = evaluate_release(
        "0.1.0",
        "vv2.0.0",
        "https://github.com/owayo/ignitero-launcher/releases/tag/vv2.0.0",
        false,
    )
    .expect("valid release");
    assert_eq!(r.latest_version, Some("2.0.0".to_string()));
    assert!(r.has_update);
}
