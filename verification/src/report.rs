//! Rendering of batch results into machine-readable report rows and
//! summary counts. The interactive printing itself stays outside the
//! library; everything here only builds strings and numbers.

use vstd::prelude::*;
use crate::batch::BatchPackageView;
use crate::classify::{BatchResult, CheckStatus};
use crate::lock::{FindingView, findings_view, PackageFound};
use crate::strutil::views_of;

verus! {

/// The fixed label of each outcome in reports.
pub open spec fn status_label_spec(s: CheckStatus) -> Seq<char> {
    match s {
        CheckStatus::Found => "Found"@,
        CheckStatus::NotFound => "Not Found"@,
        CheckStatus::VersionMismatch => "Version Mismatch"@,
        CheckStatus::PartialMatch => "Partial Match"@,
    }
}

/// The report label of an outcome.
pub fn status_label(s: CheckStatus) -> (r: String)
    ensures
        r@ == status_label_spec(s),
{
    match s {
        CheckStatus::Found => String::from_str("Found"),
        CheckStatus::NotFound => String::from_str("Not Found"),
        CheckStatus::VersionMismatch => String::from_str("Version Mismatch"),
        CheckStatus::PartialMatch => String::from_str("Partial Match"),
    }
}

/// The parts joined with `sep` between each neighbouring pair.
pub open spec fn join_spec(parts: Seq<Seq<char>>, sep: Seq<char>) -> Seq<char>
    decreases parts.len(),
{
    if parts.len() == 0 {
        Seq::empty()
    } else if parts.len() == 1 {
        parts[0]
    } else {
        parts[0] + sep + join_spec(parts.drop_first(), sep)
    }
}

proof fn lemma_join_push(s: Seq<Seq<char>>, x: Seq<char>, sep: Seq<char>)
    ensures
        s.len() == 0 ==> join_spec(s.push(x), sep) == x,
        s.len() > 0 ==> join_spec(s.push(x), sep) =~= join_spec(s, sep) + sep + x,
    decreases s.len(),
{
    if s.len() == 0 {
        assert(s.push(x)[0] == x);
    } else {
        lemma_join_push(s.drop_first(), x, sep);
        assert(s.push(x).drop_first() =~= s.drop_first().push(x));
        assert(s.push(x)[0] == s[0]);
        if s.len() == 1 {
            assert(join_spec(s, sep) == s[0]);
            assert(join_spec(s.push(x), sep) =~= join_spec(s, sep) + sep + x);
        } else {
            assert(join_spec(s.push(x), sep) =~= join_spec(s, sep) + sep + x);
        }
    }
}

/// Join strings with a separator.
pub fn join_strings(parts: &Vec<String>, sep: &str) -> (r: String)
    ensures
        r@ == join_spec(views_of(parts@), sep@),
{
    let ghost all = views_of(parts@);
    let mut out = String::new();
    let mut i: usize = 0;
    proof {
        assert(out@ =~= join_spec(all.take(0), sep@));
    }
    while i < parts.len()
        invariant
            all == views_of(parts@),
            0 <= i <= parts@.len(),
            out@ == join_spec(all.take(i as int), sep@),
        decreases parts@.len() - i,
    {
        if i > 0 {
            out.append(sep);
        }
        out.append(parts[i].as_str());
        proof {
            assert(all[i as int] == parts@[i as int]@);
            assert(all.take(i as int).push(all[i as int]) =~= all.take(i as int + 1));
            lemma_join_push(all.take(i as int), all[i as int], sep@);
        }
        i = i + 1;
    }
    proof {
        assert(all.take(parts@.len() as int) =~= all);
    }
    out
}

/// The versions carried by findings, in order.
pub open spec fn versions_of(findings: Seq<FindingView>) -> Seq<Seq<char>> {
    findings.map_values(|f: FindingView| f.version)
}

/// The `location (dependency-type)` entry of each finding, in order.
pub open spec fn location_entries(findings: Seq<FindingView>) -> Seq<Seq<char>> {
    findings.map_values(|f: FindingView| f.location + " ("@ + f.dependency_type + ")"@)
}

/// The expected-versions field: `Any` when unconstrained.
pub open spec fn expected_field_spec(versions: Seq<Seq<char>>) -> Seq<char> {
    if versions.len() == 0 {
        "Any"@
    } else {
        join_spec(versions, ", "@)
    }
}

/// The found-versions field: `None` when nothing was found.
pub open spec fn found_field_spec(findings: Seq<FindingView>) -> Seq<char> {
    if findings.len() == 0 {
        "None"@
    } else {
        join_spec(versions_of(findings), ", "@)
    }
}

/// The locations field: `None` when nothing was found.
pub open spec fn locations_field_spec(findings: Seq<FindingView>) -> Seq<char> {
    if findings.len() == 0 {
        "None"@
    } else {
        join_spec(location_entries(findings), "; "@)
    }
}

fn found_version_strings(found: &Vec<PackageFound>) -> (r: Vec<String>)
    ensures
        views_of(r@) == versions_of(findings_view(found@)),
{
    let ghost target = versions_of(findings_view(found@));
    let mut out: Vec<String> = Vec::new();
    let mut i: usize = 0;
    proof {
        assert(views_of(out@) =~= target.take(0));
    }
    while i < found.len()
        invariant
            target == versions_of(findings_view(found@)),
            target.len() == found@.len(),
            0 <= i <= found@.len(),
            views_of(out@) == target.take(i as int),
        decreases found@.len() - i,
    {
        let ghost before = out@;
        out.push(found[i].version.clone());
        proof {
            crate::strutil::lemma_views_push(before, out@.last());
            assert(findings_view(found@)[i as int] == found@[i as int]@);
            assert(views_of(out@) =~= target.take(i as int + 1));
        }
        i = i + 1;
    }
    proof {
        assert(target.take(found@.len() as int) =~= target);
    }
    out
}

fn location_entry_strings(found: &Vec<PackageFound>) -> (r: Vec<String>)
    ensures
        views_of(r@) == location_entries(findings_view(found@)),
{
    let ghost target = location_entries(findings_view(found@));
    let mut out: Vec<String> = Vec::new();
    let mut i: usize = 0;
    proof {
        assert(views_of(out@) =~= target.take(0));
    }
    while i < found.len()
        invariant
            target == location_entries(findings_view(found@)),
            target.len() == found@.len(),
            0 <= i <= found@.len(),
            views_of(out@) == target.take(i as int),
        decreases found@.len() - i,
    {
        let ghost before = out@;
        let mut entry = found[i].location.clone();
        entry.append(" (");
        entry.append(found[i].dependency_type.as_str());
        entry.append(")");
        out.push(entry);
        proof {
            crate::strutil::lemma_views_push(before, out@.last());
            assert(findings_view(found@)[i as int] == found@[i as int]@);
            assert(views_of(out@) =~= target.take(i as int + 1));
        }
        i = i + 1;
    }
    proof {
        assert(target.take(found@.len() as int) =~= target);
    }
    out
}

/// One row of the machine-readable report.
pub open spec fn report_row_spec(
    package: BatchPackageView,
    found: Seq<FindingView>,
    status: CheckStatus,
) -> Seq<char> {
    package.name + "\t"@ + status_label_spec(status) + "\t"@ + expected_field_spec(
        package.versions,
    ) + "\t"@ + found_field_spec(found) + "\t"@ + locations_field_spec(found) + "\t"@ + (
    match package.status {
        Some(s) => s,
        None => Seq::empty(),
    }) + "\t"@ + (match package.detection_date {
        Some(s) => s,
        None => Seq::empty(),
    })
}

/// The header row of the machine-readable report.
pub fn report_header() -> (r: String)
    ensures
        r@
            == "Package Name\tStatus\tExpected Versions\tFound Versions\tLocations\tOriginal Status\tDetection Date"@,
{
    String::from_str(
        "Package Name\tStatus\tExpected Versions\tFound Versions\tLocations\tOriginal Status\tDetection Date",
    )
}

/// Render one batch result as a tab-separated report row.
pub fn report_row(result: &BatchResult) -> (r: String)
    ensures
        r@ == report_row_spec(
            result.package@,
            findings_view(result.found_versions@),
            result.status,
        ),
{
    let mut out = result.package.name.clone();
    out.append("\t");
    let label = status_label(result.status);
    out.append(label.as_str());
    out.append("\t");
    let expected: String = if result.package.versions.len() == 0 {
        proof {
            assert(views_of(result.package.versions@).len() == 0);
        }
        String::from_str("Any")
    } else {
        proof {
            assert(views_of(result.package.versions@).len() > 0);
        }
        join_strings(&result.package.versions, ", ")
    };
    out.append(expected.as_str());
    out.append("\t");
    let found_field: String = if result.found_versions.len() == 0 {
        String::from_str("None")
    } else {
        let vs = found_version_strings(&result.found_versions);
        join_strings(&vs, ", ")
    };
    out.append(found_field.as_str());
    out.append("\t");
    let locations_field: String = if result.found_versions.len() == 0 {
        String::from_str("None")
    } else {
        let entries = location_entry_strings(&result.found_versions);
        join_strings(&entries, "; ")
    };
    out.append(locations_field.as_str());
    out.append("\t");
    match &result.package.status {
        Some(s) => out.append(s.as_str()),
        None => (),
    }
    out.append("\t");
    match &result.package.detection_date {
        Some(s) => out.append(s.as_str()),
        None => (),
    }
    proof {
        assert(out@ =~= report_row_spec(
            result.package@,
            findings_view(result.found_versions@),
            result.status,
        ));
    }
    out
}

/// How many results carry each outcome.
pub open spec fn count_status(results: Seq<BatchResult>, s: CheckStatus) -> nat {
    results.filter(|r: BatchResult| r.status == s).len()
}

/// The per-outcome totals of a batch run.
pub struct BatchSummary {
    pub found: usize,
    pub partial_match: usize,
    pub version_mismatch: usize,
    pub not_found: usize,
}

/// Count each outcome across the results.
pub fn summarize(results: &Vec<BatchResult>) -> (r: BatchSummary)
    ensures
        r.found == count_status(results@, CheckStatus::Found),
        r.partial_match == count_status(results@, CheckStatus::PartialMatch),
        r.version_mismatch == count_status(results@, CheckStatus::VersionMismatch),
        r.not_found == count_status(results@, CheckStatus::NotFound),
{
    let mut found: usize = 0;
    let mut partial_match: usize = 0;
    let mut version_mismatch: usize = 0;
    let mut not_found: usize = 0;
    let mut i: usize = 0;
    proof {
        reveal(Seq::filter);
        assert(results@.take(0) =~= Seq::<BatchResult>::empty());
    }
    while i < results.len()
        invariant
            0 <= i <= results@.len(),
            found == count_status(results@.take(i as int), CheckStatus::Found),
            partial_match == count_status(results@.take(i as int), CheckStatus::PartialMatch),
            version_mismatch == count_status(
                results@.take(i as int),
                CheckStatus::VersionMismatch,
            ),
            not_found == count_status(results@.take(i as int), CheckStatus::NotFound),
            found <= i && partial_match <= i && version_mismatch <= i && not_found <= i,
        decreases results@.len() - i,
    {
        proof {
            reveal(Seq::filter);
            assert(results@.take(i as int + 1).drop_last() =~= results@.take(i as int));
            assert(results@.take(i as int + 1).last() == results@[i as int]);
        }
        match results[i].status {
            CheckStatus::Found => found = found + 1,
            CheckStatus::PartialMatch => partial_match = partial_match + 1,
            CheckStatus::VersionMismatch => version_mismatch = version_mismatch + 1,
            CheckStatus::NotFound => not_found = not_found + 1,
        }
        i = i + 1;
    }
    proof {
        assert(results@.take(results@.len() as int) =~= results@);
    }
    BatchSummary { found, partial_match, version_mismatch, not_found }
}

} // verus!
