use std::cmp::Ordering;
use teralaunch::version::{compare_versions, launcher_update_info, parse_version_parts, LauncherUpdateManifest};

#[test]
fn versions_compare_numerically() {
    assert_eq!(compare_versions("0.0.6", "0.0.7"), Ordering::Less);
    assert_eq!(compare_versions("0.1.0", "0.0.9"), Ordering::Greater);
    assert_eq!(compare_versions("1.1.0.0", "1.1"), Ordering::Equal);
    assert_eq!(compare_versions("1.10", "1.9"), Ordering::Greater);
    assert_eq!(compare_versions("", ""), Ordering::Equal);
    assert_eq!(compare_versions("1.x.2", "1.2"), Ordering::Equal);
    assert_eq!(compare_versions("2", "10"), Ordering::Less);
}

#[test]
fn version_parts_skip_non_numbers() {
    assert_eq!(parse_version_parts("1.2.3"), vec![1, 2, 3]);
    assert_eq!(parse_version_parts("1..a.+4.-5.99999999999"), vec![1, 4]);
    assert_eq!(parse_version_parts("4294967295.4294967296"), vec![4294967295]);
    for s in ["1.2.3", "", ".", "a.b", "+1.2", "007.08", " 1.2"].iter() {
        let std_parts: Vec<u32> = s.split('.').filter_map(|p| p.parse().ok()).collect();
        assert_eq!(parse_version_parts(s), std_parts, "{:?}", s);
    }
}

#[test]
fn version_order_laws_on_examples() {
    let vs = ["0.0.6", "0.0.7", "1.0", "1.0.0.1", "0.10"];
    for a in vs.iter() {
        assert_eq!(compare_versions(a, a), Ordering::Equal);
        for b in vs.iter() {
            assert_eq!(compare_versions(a, b), compare_versions(b, a).reverse());
            for c in vs.iter() {
                if compare_versions(a, b) == Ordering::Less && compare_versions(b, c) == Ordering::Less {
                    assert_eq!(compare_versions(a, c), Ordering::Less);
                }
            }
        }
    }
    assert_eq!(compare_versions("1.2", "1.2.0"), Ordering::Equal);
}

fn manifest(version: &str, mandatory: Option<bool>) -> LauncherUpdateManifest {
    LauncherUpdateManifest {
        version: version.to_string(),
        download_url: "http://dl/launcher.exe".to_string(),
        changelog: Some("fixes".to_string()),
        hash: None,
        file_name: "launcher.exe".to_string(),
        release_date: None,
        mandatory,
    }
}

#[test]
fn update_offered_only_for_newer_versions() {
    let info = launcher_update_info("0.0.6".to_string(), manifest("0.0.7", None));
    assert!(info.update_available);
    assert_eq!(info.download_url, Some("http://dl/launcher.exe".to_string()));
    assert_eq!(info.latest_version, "0.0.7");
    assert_eq!(info.current_version, "0.0.6");
    assert_eq!(info.changelog, Some("fixes".to_string()));
    assert!(!info.mandatory);
    let info = launcher_update_info("0.0.7".to_string(), manifest("0.0.7", Some(true)));
    assert!(!info.update_available);
    assert_eq!(info.download_url, None);
    assert!(info.mandatory);
    let info = launcher_update_info("0.1".to_string(), manifest("0.0.9", Some(false)));
    assert!(!info.update_available);
}
