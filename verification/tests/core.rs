//! Tests of the version normalizer, the matcher and the key parsers.

use lockcheck::keys::{
    extract_package_name_from_snapshot_key, extract_version_from_key,
    extract_version_from_snapshot_key,
};
use lockcheck::version::{extract_version, version_matches};

#[test]
fn normalizer_strips_peer_annotations() {
    assert_eq!(
        extract_version("4.8.3(react-dom@18.3.1)(react@18.3.1)"),
        "4.8.3"
    );
}

#[test]
fn normalizer_keeps_plain_versions() {
    assert_eq!(extract_version("1.2.3"), "1.2.3");
}

#[test]
fn normalizer_keeps_empty_string() {
    assert_eq!(extract_version(""), "");
}

#[test]
fn matcher_accepts_prefix_dot() {
    assert!(version_matches("18.3.1", "18"));
    assert!(version_matches("18.3.1", "18.3"));
}

#[test]
fn matcher_rejects_other_major() {
    assert!(!version_matches("2.0.0", "18"));
}

#[test]
fn matcher_accepts_equal() {
    assert!(version_matches("1.0.0", "1.0.0"));
}

#[test]
fn matcher_requires_dot_boundary() {
    assert!(!version_matches("180.0.0", "18"));
    assert!(!version_matches("18", "18.3"));
}

#[test]
fn snapshot_key_round_trip() {
    let key = "@ahooksjs/use-request@2.8.15(react@18.3.1)";
    assert_eq!(extract_package_name_from_snapshot_key(key), "@ahooksjs/use-request");
    assert_eq!(extract_version_from_snapshot_key(key), "2.8.15");
}

#[test]
fn snapshot_key_without_at() {
    assert_eq!(extract_package_name_from_snapshot_key("plain(x)"), "plain");
    assert_eq!(extract_version_from_snapshot_key("plain"), "");
}

#[test]
fn package_key_version_for_scoped_name() {
    assert_eq!(
        extract_version_from_key("@ant-design/icons@4.8.3", "@ant-design/icons"),
        "4.8.3"
    );
}

#[test]
fn package_key_version_cuts_peer_suffix() {
    assert_eq!(
        extract_version_from_key("lodash@4.17.21_peer_abc", "lodash"),
        "4.17.21"
    );
}

#[test]
fn package_key_version_absent_name_is_empty() {
    assert_eq!(extract_version_from_key("react@18.3.1", "lodash"), "");
}
