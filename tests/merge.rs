use drifters::config::AppConfig;
use drifters::merge::{intelligent_merge, MachineVersion, VersionMap};

fn mv(content: &str, ts: Option<u64>) -> MachineVersion {
    MachineVersion {
        content: content.to_string(),
        committed_at: ts,
    }
}

#[test]
fn test_single_version() {
    let mut versions = VersionMap::new();
    versions.insert("machine1".to_string(), mv("content", None));

    let result =
        intelligent_merge(&versions, "machine1", "test.txt", &AppConfig::default()).unwrap();
    assert_eq!(result, "content");
}

#[test]
fn test_identical_versions() {
    let mut versions = VersionMap::new();
    versions.insert("machine1".to_string(), mv("same", None));
    versions.insert("machine2".to_string(), mv("same", None));
    versions.insert("machine3".to_string(), mv("same", None));

    let result =
        intelligent_merge(&versions, "machine1", "test.txt", &AppConfig::default()).unwrap();
    assert_eq!(result, "same");
}

#[test]
fn test_newest_timestamp_wins_over_majority() {
    let mut versions = VersionMap::new();
    versions.insert("machine_a".to_string(), mv("new_version", Some(100)));
    versions.insert("machine_b".to_string(), mv("old_version", Some(50)));
    versions.insert("machine_c".to_string(), mv("old_version", Some(50)));

    let result =
        intelligent_merge(&versions, "machine_b", "test.txt", &AppConfig::default()).unwrap();
    assert_eq!(result, "new_version");
}

#[test]
fn test_none_timestamp_loses_to_any_real_timestamp() {
    let mut versions = VersionMap::new();
    versions.insert("legacy".to_string(), mv("legacy_content", None));
    versions.insert("modern".to_string(), mv("modern_content", Some(1)));

    let result =
        intelligent_merge(&versions, "legacy", "test.txt", &AppConfig::default()).unwrap();
    assert_eq!(result, "modern_content");
}

#[test]
fn test_timestamp_tie_prefers_current_machine() {
    let mut versions = VersionMap::new();
    versions.insert("machine1".to_string(), mv("my_version", Some(42)));
    versions.insert("machine2".to_string(), mv("other_version", Some(42)));

    let result =
        intelligent_merge(&versions, "machine1", "test.txt", &AppConfig::default()).unwrap();
    assert_eq!(result, "my_version");
}

#[test]
fn test_timestamp_tie_without_current_machine_is_deterministic() {
    let mut versions = VersionMap::new();
    versions.insert("machine1".to_string(), mv("bbb", Some(10)));
    versions.insert("machine2".to_string(), mv("aaa", Some(10)));

    let result1 =
        intelligent_merge(&versions, "machine3", "test.txt", &AppConfig::default()).unwrap();

    let mut versions2 = VersionMap::new();
    versions2.insert("machine2".to_string(), mv("aaa", Some(10)));
    versions2.insert("machine1".to_string(), mv("bbb", Some(10)));

    let result2 =
        intelligent_merge(&versions2, "machine3", "test.txt", &AppConfig::default()).unwrap();

    assert_eq!(result1, result2);
    assert_eq!(result1, "aaa");
}

#[test]
fn test_all_none_timestamps_tiebreak_is_deterministic() {
    let mut versions = VersionMap::new();
    versions.insert("machine1".to_string(), mv("zzz", None));
    versions.insert("machine2".to_string(), mv("aaa", None));

    let result =
        intelligent_merge(&versions, "machine3", "test.txt", &AppConfig::default()).unwrap();
    assert_eq!(result, "aaa");
}

#[test]
fn empty_version_map_is_a_configuration_error() {
    let versions = VersionMap::new();
    let result = intelligent_merge(&versions, "m", "f", &AppConfig::default());
    assert!(result.is_err());
    assert!(result.unwrap_err().to_string().contains("No versions available"));
}

#[test]
fn latest_write_wins_whoever_merges() {
    let mut versions = VersionMap::new();
    versions.insert("A".to_string(), mv("x", Some(100)));
    versions.insert("B".to_string(), mv("y", Some(50)));
    assert_eq!(intelligent_merge(&versions, "B", "f", &AppConfig::default()).unwrap(), "x");
}

#[test]
fn tie_keeps_own_copy() {
    let mut versions = VersionMap::new();
    versions.insert("self".to_string(), mv("a", Some(10)));
    versions.insert("other".to_string(), mv("b", Some(10)));
    assert_eq!(intelligent_merge(&versions, "self", "f", &AppConfig::default()).unwrap(), "a");
    let mut swapped = VersionMap::new();
    swapped.insert("self".to_string(), mv("b", Some(10)));
    swapped.insert("other".to_string(), mv("a", Some(10)));
    assert_eq!(intelligent_merge(&swapped, "self", "f", &AppConfig::default()).unwrap(), "b");
}

#[test]
fn three_machines_two_agree_on_latest() {
    let mut versions = VersionMap::new();
    versions.insert("m1".to_string(), mv("alias a", Some(10)));
    versions.insert("m2".to_string(), mv("alias b", Some(20)));
    versions.insert("m3".to_string(), mv("alias b", Some(20)));
    for me in ["m1", "m2", "m3", "m4"] {
        assert_eq!(
            intelligent_merge(&versions, me, ".bashrc", &AppConfig::default()).unwrap(),
            "alias b"
        );
    }
}

#[test]
fn agreeing_copies_ignore_timestamps() {
    let mut versions = VersionMap::new();
    versions.insert("m1".to_string(), mv("c", Some(5)));
    versions.insert("m2".to_string(), mv("c", None));
    versions.insert("m3".to_string(), mv("c", Some(99)));
    assert_eq!(intelligent_merge(&versions, "zz", "f", &AppConfig::default()).unwrap(), "c");
}

#[test]
fn lexicographic_tie_break_orders_by_code_point() {
    let mut versions = VersionMap::new();
    versions.insert("m1".to_string(), mv("ab", Some(7)));
    versions.insert("m2".to_string(), mv("a", Some(7)));
    versions.insert("m3".to_string(), mv("B", Some(7)));
    versions.insert("m4".to_string(), mv("0", Some(3)));
    assert_eq!(intelligent_merge(&versions, "none", "f", &AppConfig::default()).unwrap(), "B");
}

#[test]
fn insert_replaces_previous_copy() {
    let mut versions = VersionMap::new();
    versions.insert("m1".to_string(), mv("old", Some(100)));
    versions.insert("m2".to_string(), mv("other", Some(50)));
    versions.insert("m1".to_string(), mv("new", Some(10)));
    assert_eq!(versions.len(), 2);
    assert_eq!(versions.get("m1").unwrap().content, "new");
    assert_eq!(intelligent_merge(&versions, "x", "f", &AppConfig::default()).unwrap(), "other");
}
