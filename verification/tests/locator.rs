//! Tests of the locator across the three lockfile sections.

use lockcheck::lock::{
    DependencyInfo, Importer, PackageFound, PackageInfo, PnpmLock, Resolution, SnapshotInfo,
    find_package_in_lock,
};

fn empty_importer() -> Importer {
    Importer {
        dependencies: Vec::new(),
        dev_dependencies: Vec::new(),
        optional_dependencies: Vec::new(),
    }
}

fn package_info() -> PackageInfo {
    PackageInfo {
        resolution: Resolution { integrity: String::from("sha512-abc"), tarball: None },
        peer_dependencies: Vec::new(),
        dependencies: Vec::new(),
        dev_dependencies: Vec::new(),
    }
}

fn empty_snapshot() -> SnapshotInfo {
    SnapshotInfo {
        dependencies: Vec::new(),
        dev_dependencies: Vec::new(),
        optional_dependencies: Vec::new(),
    }
}

fn empty_lock() -> PnpmLock {
    PnpmLock {
        lockfile_version: String::from("9.0"),
        importers: Vec::new(),
        packages: Vec::new(),
        snapshots: Vec::new(),
    }
}

fn versions_of(found: &[PackageFound]) -> Vec<&str> {
    found.iter().map(|f| f.version.as_str()).collect()
}

#[test]
fn packages_pass_deduplicates_by_version() {
    let mut lock = empty_lock();
    lock.packages.push((String::from("lodash@4.17.21"), package_info()));
    lock.packages.push((String::from("lodash@4.17.21_peer_abc"), package_info()));
    let found = find_package_in_lock(&lock, "lodash");
    assert_eq!(found.len(), 1);
    assert_eq!(found[0].version, "4.17.21");
    assert_eq!(found[0].location, "packages section");
    assert_eq!(found[0].dependency_type, "packages");
    assert_eq!(found[0].specifier, "");
}

#[test]
fn importer_match_reports_root_and_type() {
    let mut lock = empty_lock();
    let mut imp = empty_importer();
    imp.dependencies.push((
        String::from("antd"),
        DependencyInfo {
            specifier: String::from("^4.8.3"),
            version: String::from("4.8.3(react@18.3.1)"),
        },
    ));
    lock.importers.push((String::from("."), imp));
    let found = find_package_in_lock(&lock, "antd");
    assert_eq!(found.len(), 1);
    assert_eq!(found[0].location, "root");
    assert_eq!(found[0].specifier, "^4.8.3");
    assert_eq!(found[0].version, "4.8.3");
    assert_eq!(found[0].dependency_type, "dependencies");
}

#[test]
fn importer_subpath_and_dev_optional_types() {
    let mut lock = empty_lock();
    let mut imp = empty_importer();
    imp.dev_dependencies.push((
        String::from("antd"),
        DependencyInfo { specifier: String::from("^4.0.0"), version: String::from("4.8.3") },
    ));
    imp.optional_dependencies.push((
        String::from("antd"),
        DependencyInfo { specifier: String::from("^4.0.0"), version: String::from("4.9.0") },
    ));
    lock.importers.push((String::from("packages/web"), imp));
    let found = find_package_in_lock(&lock, "antd");
    assert_eq!(found.len(), 2);
    assert_eq!(found[0].location, "packages/web");
    assert_eq!(found[0].dependency_type, "devDependencies");
    assert_eq!(found[1].dependency_type, "optionalDependencies");
}

#[test]
fn snapshot_dependency_map_match() {
    let mut lock = empty_lock();
    let mut snap = empty_snapshot();
    snap.dependencies.push((String::from("antd"), String::from("4.8.3(react@18.3.1)")));
    lock.snapshots.push((String::from("someapp@1.0.0"), snap));
    let found = find_package_in_lock(&lock, "antd");
    assert_eq!(found.len(), 1);
    assert_eq!(found[0].location, "snapshots section");
    assert_eq!(found[0].version, "4.8.3");
    assert_eq!(found[0].dependency_type, "snapshots[someapp@1.0.0].dependencies");
}

#[test]
fn snapshot_key_name_match() {
    let mut lock = empty_lock();
    lock.snapshots.push((
        String::from("@ahooksjs/use-request@2.8.15(react@18.3.1)"),
        empty_snapshot(),
    ));
    let found = find_package_in_lock(&lock, "@ahooksjs/use-request");
    assert_eq!(found.len(), 1);
    assert_eq!(found[0].version, "2.8.15");
    assert_eq!(found[0].dependency_type, "snapshots");
}

#[test]
fn absent_package_yields_no_findings() {
    let mut lock = empty_lock();
    lock.packages.push((String::from("react@18.3.1"), package_info()));
    let found = find_package_in_lock(&lock, "antd");
    assert!(found.is_empty());
}

#[test]
fn unscoped_name_does_not_match_superstring_key() {
    let mut lock = empty_lock();
    lock.packages.push((String::from("react-dom@18.3.1"), package_info()));
    lock.packages.push((String::from("react@18.3.1"), package_info()));
    let found = find_package_in_lock(&lock, "react");
    assert_eq!(versions_of(&found), vec!["18.3.1"]);
}

#[test]
fn all_three_sections_contribute() {
    let mut lock = empty_lock();
    let mut imp = empty_importer();
    imp.dependencies.push((
        String::from("antd"),
        DependencyInfo { specifier: String::from("^4.8.3"), version: String::from("4.8.3") },
    ));
    lock.importers.push((String::from("."), imp));
    lock.packages.push((String::from("antd@5.0.0"), package_info()));
    let mut snap = empty_snapshot();
    snap.dependencies.push((String::from("antd"), String::from("5.1.0")));
    lock.snapshots.push((String::from("x@1.0.0"), snap));
    let found = find_package_in_lock(&lock, "antd");
    assert_eq!(versions_of(&found), vec!["4.8.3", "5.0.0", "5.1.0"]);
}
