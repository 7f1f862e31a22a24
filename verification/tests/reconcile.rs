//! Tests of the reconciliation engine, the single check, the batch list
//! parser and the report rendering.

use lockcheck::batch::{parse_batch_content, parse_version1_format, parse_version2_format,
    BatchPackage, BatchParseError};
use lockcheck::classify::{check_batch, classify, run_single_check, CheckStatus};
use lockcheck::lock::{DependencyInfo, Importer, PackageFound, PnpmLock};
use lockcheck::report::{report_header, report_row, summarize};

fn finding(version: &str) -> PackageFound {
    PackageFound {
        location: String::from("packages section"),
        specifier: String::new(),
        version: String::from(version),
        dependency_type: String::from("packages"),
    }
}

fn strings(items: &[&str]) -> Vec<String> {
    items.iter().map(|s| String::from(*s)).collect()
}

fn empty_lock() -> PnpmLock {
    PnpmLock {
        lockfile_version: String::from("9.0"),
        importers: Vec::new(),
        packages: Vec::new(),
        snapshots: Vec::new(),
    }
}

fn lock_with_root_antd() -> PnpmLock {
    let mut lock = empty_lock();
    let imp = Importer {
        dependencies: vec![(
            String::from("antd"),
            DependencyInfo {
                specifier: String::from("^4.8.3"),
                version: String::from("4.8.3"),
            },
        )],
        dev_dependencies: Vec::new(),
        optional_dependencies: Vec::new(),
    };
    lock.importers.push((String::from("."), imp));
    lock
}

#[test]
fn no_expected_versions_means_found() {
    let findings = vec![finding("0.0.0")];
    assert_eq!(classify(&Vec::new(), &findings), CheckStatus::Found);
    let findings = vec![finding("literally anything")];
    assert_eq!(classify(&Vec::new(), &findings), CheckStatus::Found);
}

#[test]
fn no_findings_means_not_found() {
    assert_eq!(classify(&strings(&["2.0.0"]), &Vec::new()), CheckStatus::NotFound);
}

#[test]
fn unmatched_findings_mean_version_mismatch() {
    let findings = vec![finding("1.0.0")];
    assert_eq!(classify(&strings(&["2.0.0"]), &findings), CheckStatus::VersionMismatch);
}

#[test]
fn count_equality_means_found() {
    let findings = vec![finding("1.0.3"), finding("2.0.1")];
    assert_eq!(classify(&strings(&["1.0", "2.0"]), &findings), CheckStatus::Found);
}

#[test]
fn partial_match_when_counts_differ() {
    let findings = vec![finding("1.0.3")];
    assert_eq!(classify(&strings(&["1.0", "2.0"]), &findings), CheckStatus::PartialMatch);
}

#[test]
fn format_a_row_parses_name_and_versions() {
    let content = "X\tPackage Name\tVersion(s)\n1\tantd\t4.8.3, 5.0.0";
    let parsed = parse_batch_content(content).unwrap();
    assert_eq!(parsed.len(), 1);
    assert_eq!(parsed[0].name, "antd");
    assert_eq!(parsed[0].versions, strings(&["4.8.3", "5.0.0"]));
    assert_eq!(parsed[0].status, None);
    assert_eq!(parsed[0].detection_date, None);
}

#[test]
fn format_a_skips_blank_and_short_rows() {
    let lines = strings(&["", "too\tshort", "1\tantd\t4.8.3", "   "]);
    let parsed = parse_version1_format(&lines);
    assert_eq!(parsed.len(), 1);
    assert_eq!(parsed[0].name, "antd");
    assert_eq!(parsed[0].versions, strings(&["4.8.3"]));
}

#[test]
fn format_a_empty_versions_field_means_any() {
    let lines = strings(&["1\tantd\t"]);
    let parsed = parse_version1_format(&lines);
    assert_eq!(parsed.len(), 1);
    assert!(parsed[0].versions.is_empty());
}

#[test]
fn format_a_trims_fields() {
    let lines = strings(&["1\t antd \t 4.8.3 ,  5.0.0"]);
    let parsed = parse_version1_format(&lines);
    assert_eq!(parsed.len(), 1);
    assert_eq!(parsed[0].name, "antd");
    assert_eq!(parsed[0].versions, strings(&["4.8.3", "5.0.0"]));
}

#[test]
fn version_list_splits_only_on_comma_space() {
    let lines = strings(&["1\tantd\t4.8.3,5.0.0"]);
    let parsed = parse_version1_format(&lines);
    assert_eq!(parsed[0].versions, strings(&["4.8.3,5.0.0"]));
}

#[test]
fn format_b_rows_carry_status_and_date() {
    let content = "Package Name\tCompromised Version(s)\tDetection Date\tStatus\n\
        lodash\t4.17.21\t2024-01-02\tconfirmed\n";
    let parsed = parse_batch_content(content).unwrap();
    assert_eq!(parsed.len(), 1);
    assert_eq!(parsed[0].name, "lodash");
    assert_eq!(parsed[0].versions, strings(&["4.17.21"]));
    assert_eq!(parsed[0].status.as_deref(), Some("confirmed"));
    assert_eq!(parsed[0].detection_date.as_deref(), Some("2024-01-02"));
}

#[test]
fn format_b_skips_short_rows() {
    let lines = strings(&["lodash\t4.17.21\t2024-01-02"]);
    let parsed = parse_version2_format(&lines);
    assert!(parsed.is_empty());
}

#[test]
fn unrecognized_header_is_an_error() {
    let content = "some other file\nantd\t4.8.3";
    assert!(matches!(
        parse_batch_content(content),
        Err(BatchParseError::UnrecognizedHeader)
    ));
}

#[test]
fn empty_batch_file_parses_to_nothing() {
    assert_eq!(parse_batch_content("").unwrap().len(), 0);
}

#[test]
fn crlf_batch_file_parses_cleanly() {
    let content = "X\tPackage Name\tVersion(s)\r\n1\tantd\t4.8.3\r\n";
    let parsed = parse_batch_content(content).unwrap();
    assert_eq!(parsed.len(), 1);
    assert_eq!(parsed[0].name, "antd");
    assert_eq!(parsed[0].versions, strings(&["4.8.3"]));
}

#[test]
fn single_check_without_version_finds_root_import() {
    let lock = lock_with_root_antd();
    let r = run_single_check(&lock, "antd", None);
    assert_eq!(r.status, CheckStatus::Found);
    assert_eq!(r.findings.len(), 1);
    assert_eq!(r.findings[0].location, "root");
    assert!(r.matched.is_empty());
}

#[test]
fn single_check_with_wrong_version_is_a_mismatch() {
    let lock = lock_with_root_antd();
    let wanted = String::from("5.0.0");
    let r = run_single_check(&lock, "antd", Some(&wanted));
    assert_eq!(r.status, CheckStatus::VersionMismatch);
    assert_eq!(r.findings.len(), 1);
    assert!(r.matched.is_empty());
}

#[test]
fn single_check_with_right_version_matches() {
    let lock = lock_with_root_antd();
    let wanted = String::from("4.8.3");
    let r = run_single_check(&lock, "antd", Some(&wanted));
    assert_eq!(r.status, CheckStatus::Found);
    assert_eq!(r.matched.len(), 1);
    assert_eq!(r.matched[0].version, "4.8.3");
}

#[test]
fn single_check_missing_package_is_not_found() {
    let lock = lock_with_root_antd();
    let r = run_single_check(&lock, "react", None);
    assert_eq!(r.status, CheckStatus::NotFound);
    assert!(r.findings.is_empty());
}

fn batch_package(name: &str, versions: &[&str]) -> BatchPackage {
    BatchPackage {
        name: String::from(name),
        versions: strings(versions),
        status: None,
        detection_date: None,
    }
}

#[test]
fn batch_check_classifies_each_target() {
    let lock = lock_with_root_antd();
    let targets = vec![
        batch_package("antd", &[]),
        batch_package("antd", &["5.0.0"]),
        batch_package("react", &["18.0.0"]),
    ];
    let results = check_batch(&lock, &targets);
    assert_eq!(results.len(), 3);
    assert_eq!(results[0].status, CheckStatus::Found);
    assert_eq!(results[1].status, CheckStatus::VersionMismatch);
    assert_eq!(results[2].status, CheckStatus::NotFound);
    assert_eq!(results[0].package.name, "antd");
    assert_eq!(results[0].found_versions.len(), 1);
    let summary = summarize(&results);
    assert_eq!(summary.found, 1);
    assert_eq!(summary.version_mismatch, 1);
    assert_eq!(summary.not_found, 1);
    assert_eq!(summary.partial_match, 0);
}

#[test]
fn report_header_names_all_columns() {
    assert_eq!(
        report_header(),
        "Package Name\tStatus\tExpected Versions\tFound Versions\tLocations\tOriginal Status\tDetection Date"
    );
}

#[test]
fn report_row_renders_fields_and_defaults() {
    let lock = lock_with_root_antd();
    let targets = vec![batch_package("antd", &[]), batch_package("react", &["18.0.0"])];
    let results = check_batch(&lock, &targets);
    assert_eq!(
        report_row(&results[0]),
        "antd\tFound\tAny\t4.8.3\troot (dependencies)\t\t"
    );
    assert_eq!(
        report_row(&results[1]),
        "react\tNot Found\t18.0.0\tNone\tNone\t\t"
    );
}

#[test]
fn report_row_joins_multiple_findings() {
    let mut lock = lock_with_root_antd();
    let mut snap_deps = Vec::new();
    snap_deps.push((String::from("antd"), String::from("5.2.0")));
    lock.snapshots.push((
        String::from("x@1.0.0"),
        lockcheck::lock::SnapshotInfo {
            dependencies: snap_deps,
            dev_dependencies: Vec::new(),
            optional_dependencies: Vec::new(),
        },
    ));
    let targets = vec![batch_package("antd", &["4.8", "9.9"])];
    let results = check_batch(&lock, &targets);
    assert_eq!(results[0].status, CheckStatus::PartialMatch);
    assert_eq!(
        report_row(&results[0]),
        "antd\tPartial Match\t4.8, 9.9\t4.8.3, 5.2.0\troot (dependencies); snapshots section (snapshots[x@1.0.0].dependencies)\t\t"
    );
}
