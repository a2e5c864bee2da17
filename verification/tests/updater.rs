use clipdeck::updater::{download_progress, install_url, release_update, trim_leading_v, ReleaseAsset, ReleaseInfo};
use clipdeck::version::{is_newer, version_parts};

#[test]
fn newer_minor() {
    assert!(is_newer("0.2.0", "0.1.0"));
}

#[test]
fn same_version() {
    assert!(!is_newer("0.1.0", "0.1.0"));
}

#[test]
fn older_version() {
    assert!(!is_newer("0.0.9", "0.1.0"));
}

#[test]
fn longer_version_is_newer_when_prefix_equal() {
    assert!(is_newer("1.2.0.1", "1.2.0"));
    assert!(!is_newer("1.2.0", "1.2.0.1"));
}

#[test]
fn non_numeric_parts_are_skipped() {
    assert_eq!(version_parts("1.x.3"), vec![1, 3]);
    assert_eq!(version_parts("+7..8"), vec![7, 8]);
    assert_eq!(version_parts(""), Vec::<u64>::new());
    assert!(is_newer("1.x.3", "1.2"));
}

#[test]
fn parts_larger_than_u64_are_skipped() {
    assert_eq!(version_parts("1.18446744073709551616.2"), vec![1, 2]);
    assert_eq!(version_parts("18446744073709551615"), vec![u64::MAX]);
}

#[test]
fn version_order_laws_on_examples() {
    // irreflexive, asymmetric, transitive
    for v in ["0.1.0", "1.0", "2.0.1", "10.0"] {
        assert!(!is_newer(v, v));
    }
    assert!(is_newer("10.0", "2.0.1") && !is_newer("2.0.1", "10.0"));
    assert!(is_newer("2.0.1", "1.0") && is_newer("10.0", "1.0"));
}

#[test]
fn leading_v_is_trimmed() {
    assert_eq!(trim_leading_v("vv1.2"), "1.2");
    assert_eq!(trim_leading_v("1.2v"), "1.2v");
}

fn asset(name: &str, url: &str) -> ReleaseAsset {
    ReleaseAsset { name: name.to_string(), browser_download_url: url.to_string() }
}

#[test]
fn update_prefers_linux_binary() {
    let assets = vec![
        asset("clipdeck.tar.gz", "u-tar"),
        asset("clipdeck", "u-plain"),
        asset("clipdeck-linux-x86_64", "u-linux"),
    ];
    let info = release_update("v0.2.0".to_string(), &assets, "0.1.0").unwrap();
    assert_eq!(info.tag, "v0.2.0");
    assert_eq!(info.download_url, "u-linux");
}

#[test]
fn update_falls_back_to_plain_then_tarball() {
    let assets = vec![asset("src.tar.gz", "u-tar"), asset("clipdeck", "u-plain")];
    let info = release_update("0.3.0".to_string(), &assets, "v0.1.0").unwrap();
    assert_eq!(info.download_url, "u-plain");
    let assets = vec![asset("notes.txt", "u-notes"), asset("src.tar.gz", "u-tar")];
    let info = release_update("0.3.0".to_string(), &assets, "0.1.0").unwrap();
    assert_eq!(info.download_url, "u-tar");
}

#[test]
fn update_without_binary_has_empty_url() {
    let assets = vec![asset("notes.txt", "u-notes")];
    let info = release_update("0.3.0".to_string(), &assets, "0.1.0").unwrap();
    assert_eq!(info.tag, "0.3.0");
    assert_eq!(info.download_url, "");
}

#[test]
fn no_update_when_not_newer() {
    let assets = vec![asset("clipdeck", "u")];
    assert!(release_update("v0.1.0".to_string(), &assets, "0.1.0").is_none());
    assert!(release_update("0.0.9".to_string(), &assets, "0.1.0").is_none());
}

#[test]
fn progress_line_formats_percentage() {
    assert_eq!(download_progress("v0.2.0", 50, 200).unwrap(), "Downloading v0.2.0… 25%");
    assert_eq!(download_progress("v0.2.0", 0, 7).unwrap(), "Downloading v0.2.0… 0%");
    assert!(download_progress("v0.2.0", 10, 0).is_none());
}

#[test]
fn install_needs_a_binary_url() {
    let with = ReleaseInfo { tag: "v1.2.0".to_string(), download_url: "https://example.org/clipdeck".to_string() };
    assert_eq!(install_url(&with), Ok("https://example.org/clipdeck".to_string()));
    let without = ReleaseInfo { tag: "v1.2.0".to_string(), download_url: String::new() };
    assert_eq!(
        install_url(&without),
        Err("No binary asset in release v1.2.0. Please rebuild from source.".to_string())
    );
}
