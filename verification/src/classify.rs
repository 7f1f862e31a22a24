//! The reconciliation engine: expected versions against located findings,
//! for a single check and for batch checks.

use vstd::prelude::*;
use crate::lock::{
    PackageFound, FindingView, findings_view, lemma_findings_push, PnpmLock, locate_spec,
    find_package_in_lock,
};
use crate::version::{version_matches_spec, version_matches};
use crate::batch::BatchPackage;
use crate::strutil::views_of;
use vstd::multiset::Multiset;

verus! {

/// The outcome of reconciling expected versions against findings.
#[derive(Clone, Copy, Debug, PartialEq, Eq, Structural)]
pub enum CheckStatus {
    Found,
    VersionMismatch,
    NotFound,
    PartialMatch,
}

/// Whether some expected version accepts the found version `v`.
pub open spec fn any_version_matches(versions: Seq<Seq<char>>, v: Seq<char>) -> bool {
    exists|i: int| 0 <= i < versions.len() && version_matches_spec(v, versions[i])
}

/// The findings whose version some expected version accepts.
pub open spec fn matched_findings(versions: Seq<Seq<char>>, findings: Seq<FindingView>) -> Seq<
    FindingView,
> {
    findings.filter(|f: FindingView| any_version_matches(versions, f.version))
}

/// The decision rule. No findings: the package is absent. No expected
/// versions: presence alone suffices, whatever was found. Otherwise the
/// findings that some expected version accepts decide: none of them is a
/// version mismatch, exactly as many as there are expected versions is a
/// full match, and anything else is a partial match.
pub open spec fn classify_spec(versions: Seq<Seq<char>>, findings: Seq<FindingView>) -> CheckStatus {
    if findings.len() == 0 {
        CheckStatus::NotFound
    } else if versions.len() == 0 {
        CheckStatus::Found
    } else {
        let m = matched_findings(versions, findings).len();
        if m == 0 {
            CheckStatus::VersionMismatch
        } else if m == versions.len() {
            CheckStatus::Found
        } else {
            CheckStatus::PartialMatch
        }
    }
}

proof fn lemma_filter_to_multiset<A>(s: Seq<A>, pred: spec_fn(A) -> bool)
    ensures
        s.filter(pred).to_multiset() == s.to_multiset().filter(pred),
    decreases s.len(),
{
    reveal(Seq::filter);
    s.to_multiset_ensures();
    if s.len() == 0 {
        assert(s.filter(pred) == s);
        assert(s.to_multiset() =~= Multiset::<A>::empty());
        assert(s.filter(pred).to_multiset() =~= s.to_multiset().filter(pred));
    } else {
        let t = s.drop_last();
        let x = s.last();
        lemma_filter_to_multiset(t, pred);
        t.to_multiset_ensures();
        t.filter(pred).to_multiset_ensures();
        assert(t.push(x) =~= s);
        assert(t.push(x).to_multiset() =~= t.to_multiset().insert(x));
        if pred(x) {
            assert(s.filter(pred) == t.filter(pred).push(x));
            assert(t.filter(pred).push(x).to_multiset() =~= t.filter(pred).to_multiset().insert(
                x,
            ));
            assert(t.to_multiset().filter(pred).insert(x) =~= t.to_multiset().insert(x).filter(
                pred,
            ));
            assert(s.filter(pred).to_multiset() =~= s.to_multiset().filter(pred));
        } else {
            assert(s.filter(pred) == t.filter(pred));
            assert(t.to_multiset().filter(pred) =~= t.to_multiset().insert(x).filter(pred));
            assert(s.filter(pred).to_multiset() =~= s.to_multiset().filter(pred));
        }
    }
}

/// The outcome is a pure function of the expected versions and of what
/// findings there are, never of the order they stand in: two finding
/// lists holding the same findings classify alike.
pub proof fn lemma_classify_order_independent(
    versions: Seq<Seq<char>>,
    a: Seq<FindingView>,
    b: Seq<FindingView>,
)
    requires
        a.to_multiset() == b.to_multiset(),
    ensures
        classify_spec(versions, a) == classify_spec(versions, b),
{
    let pred = |f: FindingView| any_version_matches(versions, f.version);
    a.to_multiset_ensures();
    b.to_multiset_ensures();
    assert(a.len() == b.len());
    lemma_filter_to_multiset(a, pred);
    lemma_filter_to_multiset(b, pred);
    a.filter(pred).to_multiset_ensures();
    b.filter(pred).to_multiset_ensures();
    assert(matched_findings(versions, a).len() == matched_findings(versions, b).len());
}

fn finding_matched(versions: &Vec<String>, v: &str) -> (r: bool)
    ensures
        r == any_version_matches(views_of(versions@), v@),
{
    let mut i: usize = 0;
    while i < versions.len()
        invariant
            0 <= i <= versions@.len(),
            forall|j: int|
                0 <= j < i ==> !version_matches_spec(v@, views_of(versions@)[j]),
        decreases versions@.len() - i,
    {
        proof {
            assert(views_of(versions@)[i as int] == versions@[i as int]@);
        }
        if version_matches(v, versions[i].as_str()) {
            return true;
        }
        i = i + 1;
    }
    false
}

/// Classify findings against expected versions, as `classify_spec` says.
pub fn classify(versions: &Vec<String>, findings: &Vec<PackageFound>) -> (r: CheckStatus)
    ensures
        r == classify_spec(views_of(versions@), findings_view(findings@)),
{
    let ghost vs = views_of(versions@);
    let ghost fvs = findings_view(findings@);
    if findings.len() == 0 {
        return CheckStatus::NotFound;
    }
    if versions.len() == 0 {
        return CheckStatus::Found;
    }
    let mut m: usize = 0;
    let mut i: usize = 0;
    proof {
        reveal(Seq::filter);
        assert(fvs.take(0) =~= Seq::<FindingView>::empty());
    }
    while i < findings.len()
        invariant
            vs == views_of(versions@),
            fvs == findings_view(findings@),
            0 <= i <= findings@.len(),
            m <= i,
            m == matched_findings(vs, fvs.take(i as int)).len(),
        decreases findings@.len() - i,
    {
        proof {
            assert(fvs[i as int] == findings@[i as int]@);
        }
        let matched = finding_matched(versions, findings[i].version.as_str());
        proof {
            reveal(Seq::filter);
            assert(fvs.take(i as int + 1).drop_last() =~= fvs.take(i as int));
            assert(fvs.take(i as int + 1).last() == fvs[i as int]);
            assert(matched_findings(vs, fvs.take(i as int + 1)) == (
            if any_version_matches(vs, fvs[i as int].version) {
                matched_findings(vs, fvs.take(i as int)).push(fvs[i as int])
            } else {
                matched_findings(vs, fvs.take(i as int))
            }));
        }
        if matched {
            m = m + 1;
        }
        i = i + 1;
    }
    proof {
        assert(fvs.take(findings@.len() as int) =~= fvs);
    }
    if m == 0 {
        CheckStatus::VersionMismatch
    } else if m == versions.len() {
        CheckStatus::Found
    } else {
        CheckStatus::PartialMatch
    }
}

fn clone_finding(p: &PackageFound) -> (r: PackageFound)
    ensures
        r@ == p@,
{
    PackageFound {
        location: p.location.clone(),
        specifier: p.specifier.clone(),
        version: p.version.clone(),
        dependency_type: p.dependency_type.clone(),
    }
}

/// The findings whose version the single expected version accepts.
pub fn filter_matching(findings: &Vec<PackageFound>, expected: &str) -> (r: Vec<PackageFound>)
    ensures
        findings_view(r@) == findings_view(findings@).filter(
            |f: FindingView| version_matches_spec(f.version, expected@),
        ),
{
    let ghost fvs = findings_view(findings@);
    let ghost pred = |f: FindingView| version_matches_spec(f.version, expected@);
    let mut out: Vec<PackageFound> = Vec::new();
    let mut i: usize = 0;
    proof {
        reveal(Seq::filter);
        assert(fvs.take(0) =~= Seq::<FindingView>::empty());
        assert(findings_view(out@) =~= fvs.take(0).filter(pred));
    }
    while i < findings.len()
        invariant
            fvs == findings_view(findings@),
            pred == (|f: FindingView| version_matches_spec(f.version, expected@)),
            0 <= i <= findings@.len(),
            findings_view(out@) == fvs.take(i as int).filter(pred),
        decreases findings@.len() - i,
    {
        proof {
            assert(fvs[i as int] == findings@[i as int]@);
        }
        let ghost before = out@;
        let hit = version_matches(findings[i].version.as_str(), expected);
        if hit {
            out.push(clone_finding(&findings[i]));
            proof {
                lemma_findings_push(before, out@.last());
            }
        }
        proof {
            reveal(Seq::filter);
            assert(fvs.take(i as int + 1).drop_last() =~= fvs.take(i as int));
            assert(fvs.take(i as int + 1).last() == fvs[i as int]);
            assert(findings_view(out@) == fvs.take(i as int + 1).filter(pred));
        }
        i = i + 1;
    }
    proof {
        assert(fvs.take(findings@.len() as int) =~= fvs);
    }
    out
}

/// The outcome of a single-package check: absent, found (no version
/// constraint, or at least one finding at an accepted version), or a
/// version mismatch.
pub open spec fn single_status_spec(expected: Option<Seq<char>>, findings: Seq<FindingView>) -> CheckStatus {
    if findings.len() == 0 {
        CheckStatus::NotFound
    } else {
        match expected {
            None => CheckStatus::Found,
            Some(e) => {
                if findings.filter(|f: FindingView| version_matches_spec(f.version, e)).len()
                    > 0 {
                    CheckStatus::Found
                } else {
                    CheckStatus::VersionMismatch
                }
            },
        }
    }
}

/// What a single check reports: everything found, the findings matching
/// the requested version (when one was requested), and the outcome.
pub struct SingleCheck {
    pub findings: Vec<PackageFound>,
    pub matched: Vec<PackageFound>,
    pub status: CheckStatus,
}

/// Run a single-package check against the document: locate the package,
/// and when a version is requested keep the findings it accepts.
pub fn run_single_check(lock_data: &PnpmLock, package_name: &str, version: Option<&String>) -> (r:
    SingleCheck)
    ensures
        findings_view(r.findings@) == locate_spec(*lock_data, package_name@),
        r.status == single_status_spec(
            match version {
                Some(e) => Some(e@),
                None => None,
            },
            locate_spec(*lock_data, package_name@),
        ),
        match version {
            Some(e) => findings_view(r.matched@) == locate_spec(*lock_data, package_name@).filter(
                |f: FindingView| version_matches_spec(f.version, e@),
            ),
            None => r.matched@.len() == 0,
        },
{
    let findings = find_package_in_lock(lock_data, package_name);
    match version {
        Some(e) => {
            let matched = filter_matching(&findings, e.as_str());
            let status = if findings.len() == 0 {
                CheckStatus::NotFound
            } else if matched.len() > 0 {
                proof {
                    assert(findings_view(matched@).len() == matched@.len());
                }
                CheckStatus::Found
            } else {
                proof {
                    assert(findings_view(matched@).len() == matched@.len());
                }
                CheckStatus::VersionMismatch
            };
            SingleCheck { findings, matched, status }
        },
        None => {
            let status = if findings.len() == 0 {
                CheckStatus::NotFound
            } else {
                CheckStatus::Found
            };
            SingleCheck { findings, matched: Vec::new(), status }
        },
    }
}

fn clone_strings(v: &Vec<String>) -> (r: Vec<String>)
    ensures
        r@ == v@,
{
    let mut out: Vec<String> = Vec::new();
    let mut i: usize = 0;
    while i < v.len()
        invariant
            0 <= i <= v@.len(),
            out@ == v@.take(i as int),
        decreases v@.len() - i,
    {
        out.push(v[i].clone());
        proof {
            assert(out@ =~= v@.take(i as int + 1));
        }
        i = i + 1;
    }
    proof {
        assert(v@.take(v@.len() as int) =~= v@);
    }
    out
}

fn clone_batch_package(p: &BatchPackage) -> (r: BatchPackage)
    ensures
        r@ == p@,
{
    let status = match &p.status {
        Some(s) => Some(s.clone()),
        None => None,
    };
    let detection_date = match &p.detection_date {
        Some(s) => Some(s.clone()),
        None => None,
    };
    BatchPackage {
        name: p.name.clone(),
        versions: clone_strings(&p.versions),
        status,
        detection_date,
    }
}

/// The result for one batch target.
pub struct BatchResult {
    pub package: BatchPackage,
    pub found_versions: Vec<PackageFound>,
    pub status: CheckStatus,
}

/// Check every batch target against the document, in list order: locate
/// it, then classify the findings against its expected versions.
pub fn check_batch(lock_data: &PnpmLock, packages: &Vec<BatchPackage>) -> (r: Vec<BatchResult>)
    ensures
        r@.len() == packages@.len(),
        forall|i: int|
            0 <= i < r@.len() ==> (#[trigger] r@[i].package)@ == packages@[i]@,
        forall|i: int|
            0 <= i < r@.len() ==> findings_view((#[trigger] r@[i].found_versions)@)
                == locate_spec(*lock_data, packages@[i]@.name),
        forall|i: int|
            0 <= i < r@.len() ==> (#[trigger] r@[i].status) == classify_spec(
                packages@[i]@.versions,
                locate_spec(*lock_data, packages@[i]@.name),
            ),
{
    let mut results: Vec<BatchResult> = Vec::new();
    let mut i: usize = 0;
    while i < packages.len()
        invariant
            0 <= i <= packages@.len(),
            results@.len() == i,
            forall|j: int|
                0 <= j < i ==> (#[trigger] results@[j].package)@ == packages@[j]@,
            forall|j: int|
                0 <= j < i ==> findings_view((#[trigger] results@[j].found_versions)@)
                    == locate_spec(*lock_data, packages@[j]@.name),
            forall|j: int|
                0 <= j < i ==> (#[trigger] results@[j].status) == classify_spec(
                    packages@[j]@.versions,
                    locate_spec(*lock_data, packages@[j]@.name),
                ),
        decreases packages@.len() - i,
    {
        let package = &packages[i];
        let found = find_package_in_lock(lock_data, package.name.as_str());
        let status = classify(&package.versions, &found);
        let ghost prev = results@;
        results.push(
            BatchResult { package: clone_batch_package(package), found_versions: found, status },
        );
        proof {
            assert(results@[i as int] == results@.last());
            assert forall|j: int| 0 <= j < i implies results@[j] == prev[j] by {}
        }
        i = i + 1;
    }
    results
}

} // verus!
