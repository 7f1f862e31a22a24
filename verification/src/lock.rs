//! The lockfile document model and the locator that scans its three
//! sections — importers, packages, snapshots — for a target package.
//!
//! Maps are association lists in document order. The locator's result is
//! pinned down by `locate_spec`, which accumulates findings pass by pass
//! with the same de-duplication the algorithm applies: by version for the
//! packages pass, by version and location for the snapshots pass.

use vstd::prelude::*;
use crate::keys::{
    key_version_spec, snapshot_name_spec, snapshot_version_spec, extract_version_from_key,
    extract_package_name_from_snapshot_key, extract_version_from_snapshot_key,
};
use crate::strutil::{has_sub, contains_sub, ends_with, ends_with_str, str_eq};
use crate::version::{normalize_spec, extract_version};

verus! {

/// A dependency declaration of an importer: the specifier as the user
/// wrote it and the resolved version string as the lockfile wrote it.
pub struct DependencyInfo {
    pub specifier: String,
    pub version: String,
}

/// One importer (project or workspace subdirectory) with its three
/// dependency maps, each an association list from package name.
pub struct Importer {
    pub dependencies: Vec<(String, DependencyInfo)>,
    pub dev_dependencies: Vec<(String, DependencyInfo)>,
    pub optional_dependencies: Vec<(String, DependencyInfo)>,
}

/// Resolution metadata of a package-table record.
pub struct Resolution {
    pub integrity: String,
    pub tarball: Option<String>,
}

/// A package-table record; the locator consults only its key.
pub struct PackageInfo {
    pub resolution: Resolution,
    pub peer_dependencies: Vec<(String, String)>,
    pub dependencies: Vec<(String, String)>,
    pub dev_dependencies: Vec<(String, String)>,
}

/// A snapshot-table record: the resolved dependency edges at one exact
/// resolved version.
pub struct SnapshotInfo {
    pub dependencies: Vec<(String, String)>,
    pub dev_dependencies: Vec<(String, String)>,
    pub optional_dependencies: Vec<(String, String)>,
}

/// The parsed lockfile document.
pub struct PnpmLock {
    pub lockfile_version: String,
    pub importers: Vec<(String, Importer)>,
    pub packages: Vec<(String, PackageInfo)>,
    pub snapshots: Vec<(String, SnapshotInfo)>,
}

/// One place where the target package was found.
pub struct PackageFound {
    pub location: String,
    pub specifier: String,
    pub version: String,
    pub dependency_type: String,
}

/// The mathematical content of a `PackageFound`.
pub struct FindingView {
    pub location: Seq<char>,
    pub specifier: Seq<char>,
    pub version: Seq<char>,
    pub dependency_type: Seq<char>,
}

impl View for PackageFound {
    type V = FindingView;

    open spec fn view(&self) -> FindingView {
        FindingView {
            location: self.location@,
            specifier: self.specifier@,
            version: self.version@,
            dependency_type: self.dependency_type@,
        }
    }
}

/// The views of a sequence of findings.
pub open spec fn findings_view(s: Seq<PackageFound>) -> Seq<FindingView> {
    s.map_values(|p: PackageFound| p@)
}

pub proof fn lemma_findings_push(s: Seq<PackageFound>, x: PackageFound)
    ensures
        findings_view(s.push(x)) == findings_view(s).push(x@),
{
    assert(findings_view(s.push(x)) =~= findings_view(s).push(x@));
}

/// The first value bound to `key` in an importer dependency map.
pub open spec fn dep_get(entries: Seq<(String, DependencyInfo)>, key: Seq<char>) -> Option<
    DependencyInfo,
>
    decreases entries.len(),
{
    if entries.len() == 0 {
        None
    } else if entries[0].0@ == key {
        Some(entries[0].1)
    } else {
        dep_get(entries.drop_first(), key)
    }
}

/// The first value bound to `key` in a name-to-version map.
pub open spec fn map_get(entries: Seq<(String, String)>, key: Seq<char>) -> Option<String>
    decreases entries.len(),
{
    if entries.len() == 0 {
        None
    } else if entries[0].0@ == key {
        Some(entries[0].1)
    } else {
        map_get(entries.drop_first(), key)
    }
}

fn dep_find<'a>(entries: &'a Vec<(String, DependencyInfo)>, key: &str) -> (r: Option<
    &'a DependencyInfo,
>)
    ensures
        r matches Some(d) ==> dep_get(entries@, key@) == Some(*d),
        r is None ==> dep_get(entries@, key@) is None,
{
    let mut i: usize = 0;
    proof {
        assert(entries@.skip(0) =~= entries@);
    }
    while i < entries.len()
        invariant
            0 <= i <= entries@.len(),
            dep_get(entries@, key@) == dep_get(entries@.skip(i as int), key@),
        decreases entries@.len() - i,
    {
        proof {
            assert(entries@.skip(i as int)[0] == entries@[i as int]);
            assert(entries@.skip(i as int).drop_first() =~= entries@.skip(i as int + 1));
        }
        if str_eq(entries[i].0.as_str(), key) {
            return Some(&entries[i].1);
        }
        i = i + 1;
    }
    proof {
        assert(entries@.skip(entries@.len() as int).len() == 0);
    }
    None
}

fn map_find<'a>(entries: &'a Vec<(String, String)>, key: &str) -> (r: Option<&'a String>)
    ensures
        r matches Some(v) ==> map_get(entries@, key@) == Some(*v),
        r is None ==> map_get(entries@, key@) is None,
{
    let mut i: usize = 0;
    proof {
        assert(entries@.skip(0) =~= entries@);
    }
    while i < entries.len()
        invariant
            0 <= i <= entries@.len(),
            map_get(entries@, key@) == map_get(entries@.skip(i as int), key@),
        decreases entries@.len() - i,
    {
        proof {
            assert(entries@.skip(i as int)[0] == entries@[i as int]);
            assert(entries@.skip(i as int).drop_first() =~= entries@.skip(i as int + 1));
        }
        if str_eq(entries[i].0.as_str(), key) {
            return Some(&entries[i].1);
        }
        i = i + 1;
    }
    proof {
        assert(entries@.skip(entries@.len() as int).len() == 0);
    }
    None
}

/// The findings that one importer contributes, in map order:
/// dependencies, then devDependencies, then optionalDependencies.
pub open spec fn importer_findings(path: Seq<char>, imp: Importer, name: Seq<char>) -> Seq<
    FindingView,
> {
    let display = if path == "."@ {
        "root"@
    } else {
        path
    };
    let s1 = match dep_get(imp.dependencies@, name) {
        Some(d) => seq![
            FindingView {
                location: display,
                specifier: d.specifier@,
                version: normalize_spec(d.version@),
                dependency_type: "dependencies"@,
            },
        ],
        None => Seq::<FindingView>::empty(),
    };
    let s2 = match dep_get(imp.dev_dependencies@, name) {
        Some(d) => seq![
            FindingView {
                location: display,
                specifier: d.specifier@,
                version: normalize_spec(d.version@),
                dependency_type: "devDependencies"@,
            },
        ],
        None => Seq::<FindingView>::empty(),
    };
    let s3 = match dep_get(imp.optional_dependencies@, name) {
        Some(d) => seq![
            FindingView {
                location: display,
                specifier: d.specifier@,
                version: normalize_spec(d.version@),
                dependency_type: "optionalDependencies"@,
            },
        ],
        None => Seq::<FindingView>::empty(),
    };
    s1 + s2 + s3
}

/// The importers pass: every importer's contributions, in document order.
pub open spec fn importers_pass(
    imps: Seq<(String, Importer)>,
    name: Seq<char>,
    acc: Seq<FindingView>,
) -> Seq<FindingView>
    decreases imps.len(),
{
    if imps.len() == 0 {
        acc
    } else {
        importers_pass(
            imps.drop_first(),
            name,
            acc + importer_findings(imps[0].0@, imps[0].1, name),
        )
    }
}

/// Whether some accumulated finding already carries version `v`.
pub open spec fn has_version(acc: Seq<FindingView>, v: Seq<char>) -> bool {
    exists|i: int| 0 <= i < acc.len() && acc[i].version == v
}

/// Whether some accumulated finding already carries version `v` at
/// location `loc`.
pub open spec fn has_version_at(acc: Seq<FindingView>, v: Seq<char>, loc: Seq<char>) -> bool {
    exists|i: int| 0 <= i < acc.len() && acc[i].version == v && acc[i].location == loc
}

/// What one package-table key adds: a finding when the key names the
/// package, unless a finding with the same version is already there.
pub open spec fn packages_step(key: Seq<char>, name: Seq<char>, acc: Seq<FindingView>) -> Seq<
    FindingView,
> {
    let p1 = name.push('@');
    let p2 = seq!['/'] + p1;
    if has_sub(key, p1) || has_sub(key, p2) {
        let v = key_version_spec(key, name);
        if !has_version(acc, v) {
            acc.push(
                FindingView {
                    location: "packages section"@,
                    specifier: Seq::<char>::empty(),
                    version: v,
                    dependency_type: "packages"@,
                },
            )
        } else {
            acc
        }
    } else {
        acc
    }
}

/// The packages pass over all package-table keys, in document order.
pub open spec fn packages_pass(
    pkgs: Seq<(String, PackageInfo)>,
    name: Seq<char>,
    acc: Seq<FindingView>,
) -> Seq<FindingView>
    decreases pkgs.len(),
{
    if pkgs.len() == 0 {
        acc
    } else {
        packages_pass(pkgs.drop_first(), name, packages_step(pkgs[0].0@, name, acc))
    }
}

/// What one snapshot entry adds: a finding when its own dependency map
/// names the package, and a finding when the key itself names it, each
/// de-duplicated by version within the snapshots section.
pub open spec fn snapshot_step(
    key: Seq<char>,
    snap: SnapshotInfo,
    name: Seq<char>,
    acc: Seq<FindingView>,
) -> Seq<FindingView> {
    let acc1 = match map_get(snap.dependencies@, name) {
        Some(ver) => {
            let v = normalize_spec(ver@);
            if !has_version_at(acc, v, "snapshots section"@) {
                acc.push(
                    FindingView {
                        location: "snapshots section"@,
                        specifier: Seq::<char>::empty(),
                        version: v,
                        dependency_type: "snapshots["@ + key + "].dependencies"@,
                    },
                )
            } else {
                acc
            }
        },
        None => acc,
    };
    let kname = snapshot_name_spec(key);
    if kname == name || ends_with(kname, seq!['/'] + name) {
        let v = snapshot_version_spec(key);
        if v.len() > 0 && !has_version_at(acc1, v, "snapshots section"@) {
            acc1.push(
                FindingView {
                    location: "snapshots section"@,
                    specifier: Seq::<char>::empty(),
                    version: v,
                    dependency_type: "snapshots"@,
                },
            )
        } else {
            acc1
        }
    } else {
        acc1
    }
}

/// The snapshots pass over all snapshot keys, in document order.
pub open spec fn snapshots_pass(
    snaps: Seq<(String, SnapshotInfo)>,
    name: Seq<char>,
    acc: Seq<FindingView>,
) -> Seq<FindingView>
    decreases snaps.len(),
{
    if snaps.len() == 0 {
        acc
    } else {
        snapshots_pass(snaps.drop_first(), name, snapshot_step(snaps[0].0@, snaps[0].1, name, acc))
    }
}

/// Every finding for `name` in the document: the three passes run in
/// order, each feeding the accumulated list of the one before.
pub open spec fn locate_spec(doc: PnpmLock, name: Seq<char>) -> Seq<FindingView> {
    snapshots_pass(
        doc.snapshots@,
        name,
        packages_pass(doc.packages@, name, importers_pass(doc.importers@, name, Seq::empty())),
    )
}

/// No finding that the packages pass contributed repeats a version: every
/// finding whose dependency type is `packages` carries a version that no
/// earlier finding in the list carries.
pub open spec fn packages_deduped(fs: Seq<FindingView>) -> bool {
    forall|i: int, j: int|
        0 <= i < j < fs.len() && (#[trigger] fs[j]).dependency_type == "packages"@
            ==> (#[trigger] fs[i]).version != fs[j].version
}

proof fn lemma_dedup_push_other(acc: Seq<FindingView>, x: FindingView)
    requires
        packages_deduped(acc),
        x.dependency_type != "packages"@,
    ensures
        packages_deduped(acc.push(x)),
{
    let fs = acc.push(x);
    assert forall|i: int, j: int|
        0 <= i < j < fs.len() && (#[trigger] fs[j]).dependency_type == "packages"@ implies (
    #[trigger] fs[i]).version != fs[j].version by {
        if j < acc.len() {
            assert(fs[j] == acc[j]);
            assert(fs[i] == acc[i]);
        } else {
            assert(fs[j] == x);
        }
    }
}

proof fn lemma_dedup_push_fresh(acc: Seq<FindingView>, x: FindingView)
    requires
        packages_deduped(acc),
        !has_version(acc, x.version),
    ensures
        packages_deduped(acc.push(x)),
{
    let fs = acc.push(x);
    assert forall|i: int, j: int|
        0 <= i < j < fs.len() && (#[trigger] fs[j]).dependency_type == "packages"@ implies (
    #[trigger] fs[i]).version != fs[j].version by {
        if j < acc.len() {
            assert(fs[j] == acc[j]);
            assert(fs[i] == acc[i]);
        } else {
            assert(fs[i] == acc[i]);
            assert(!(acc[i].version == x.version));
        }
    }
}

proof fn lemma_importer_labels()
    ensures
        "dependencies"@ != "packages"@,
        "devDependencies"@ != "packages"@,
        "optionalDependencies"@ != "packages"@,
        "snapshots"@ != "packages"@,
{
    reveal_strlit("dependencies");
    reveal_strlit("devDependencies");
    reveal_strlit("optionalDependencies");
    reveal_strlit("snapshots");
    reveal_strlit("packages");
    assert("dependencies"@.len() == 12);
    assert("devDependencies"@.len() == 15);
    assert("optionalDependencies"@.len() == 20);
    assert("snapshots"@.len() == 9);
    assert("packages"@.len() == 8);
}

proof fn lemma_importers_pass_deduped(
    imps: Seq<(String, Importer)>,
    name: Seq<char>,
    acc: Seq<FindingView>,
)
    requires
        packages_deduped(acc),
    ensures
        packages_deduped(importers_pass(imps, name, acc)),
    decreases imps.len(),
{
    if imps.len() > 0 {
        lemma_importer_labels();
        let add = importer_findings(imps[0].0@, imps[0].1, name);
        // Each contributed finding carries an importer dependency type, so
        // none of them can be taken for a packages-pass finding.
        assert forall|k: int| 0 <= k < add.len() implies (#[trigger] add[k]).dependency_type
            != "packages"@ by {}
        lemma_append_other(acc, add);
        lemma_importers_pass_deduped(imps.drop_first(), name, acc + add);
    }
}

proof fn lemma_append_other(acc: Seq<FindingView>, add: Seq<FindingView>)
    requires
        packages_deduped(acc),
        forall|k: int| 0 <= k < add.len() ==> (#[trigger] add[k]).dependency_type != "packages"@,
    ensures
        packages_deduped(acc + add),
    decreases add.len(),
{
    if add.len() > 0 {
        lemma_dedup_push_other(acc, add[0]);
        assert(acc.push(add[0]) =~= acc + add.take(1));
        assert forall|k: int|
            0 <= k < add.drop_first().len() implies (#[trigger] add.drop_first()[k]).dependency_type
            != "packages"@ by {
            assert(add.drop_first()[k] == add[k + 1]);
        }
        lemma_append_other(acc + add.take(1), add.drop_first());
        assert((acc + add.take(1)) + add.drop_first() =~= acc + add);
    } else {
        assert(acc + add =~= acc);
    }
}

proof fn lemma_packages_pass_deduped(
    pkgs: Seq<(String, PackageInfo)>,
    name: Seq<char>,
    acc: Seq<FindingView>,
)
    requires
        packages_deduped(acc),
    ensures
        packages_deduped(packages_pass(pkgs, name, acc)),
    decreases pkgs.len(),
{
    if pkgs.len() > 0 {
        let next = packages_step(pkgs[0].0@, name, acc);
        let p1 = name.push('@');
        let p2 = seq!['/'] + p1;
        if (has_sub(pkgs[0].0@, p1) || has_sub(pkgs[0].0@, p2)) && !has_version(
            acc,
            key_version_spec(pkgs[0].0@, name),
        ) {
            lemma_dedup_push_fresh(acc, next.last());
        }
        lemma_packages_pass_deduped(pkgs.drop_first(), name, next);
    }
}

proof fn lemma_snapshots_pass_deduped(
    snaps: Seq<(String, SnapshotInfo)>,
    name: Seq<char>,
    acc: Seq<FindingView>,
)
    requires
        packages_deduped(acc),
    ensures
        packages_deduped(snapshots_pass(snaps, name, acc)),
    decreases snaps.len(),
{
    if snaps.len() > 0 {
        lemma_importer_labels();
        let key = snaps[0].0@;
        let snap = snaps[0].1;
        let acc1 = match map_get(snap.dependencies@, name) {
            Some(ver) => {
                let v = normalize_spec(ver@);
                if !has_version_at(acc, v, "snapshots section"@) {
                    let x = FindingView {
                        location: "snapshots section"@,
                        specifier: Seq::<char>::empty(),
                        version: v,
                        dependency_type: "snapshots["@ + key + "].dependencies"@,
                    };
                    assert(x.dependency_type != "packages"@) by {
                        reveal_strlit("snapshots[");
                        reveal_strlit("].dependencies");
                        reveal_strlit("packages");
                        assert(x.dependency_type.len() >= 24);
                    }
                    lemma_dedup_push_other(acc, x);
                    acc.push(x)
                } else {
                    acc
                }
            },
            None => acc,
        };
        let kname = snapshot_name_spec(key);
        if kname == name || ends_with(kname, seq!['/'] + name) {
            let v2 = snapshot_version_spec(key);
            if v2.len() > 0 && !has_version_at(acc1, v2, "snapshots section"@) {
                lemma_dedup_push_other(
                    acc1,
                    FindingView {
                        location: "snapshots section"@,
                        specifier: Seq::<char>::empty(),
                        version: v2,
                        dependency_type: "snapshots"@,
                    },
                );
            }
        }
        lemma_snapshots_pass_deduped(snaps.drop_first(), name, snapshot_step(key, snap, name, acc));
    }
}

/// The locator's list never holds two findings with the same version when
/// the later of the two came from the packages pass: lexically distinct
/// package-table keys that resolve to one version yield one finding.
pub proof fn lemma_locate_packages_deduped(doc: PnpmLock, name: Seq<char>)
    ensures
        packages_deduped(locate_spec(doc, name)),
{
    lemma_importers_pass_deduped(doc.importers@, name, Seq::empty());
    lemma_packages_pass_deduped(
        doc.packages@,
        name,
        importers_pass(doc.importers@, name, Seq::empty()),
    );
    lemma_snapshots_pass_deduped(
        doc.snapshots@,
        name,
        packages_pass(
            doc.packages@,
            name,
            importers_pass(doc.importers@, name, Seq::empty()),
        ),
    );
}

fn has_version_exec(found: &Vec<PackageFound>, v: &str) -> (r: bool)
    ensures
        r == has_version(findings_view(found@), v@),
{
    let mut i: usize = 0;
    while i < found.len()
        invariant
            0 <= i <= found@.len(),
            forall|j: int| 0 <= j < i ==> findings_view(found@)[j].version != v@,
        decreases found@.len() - i,
    {
        if str_eq(found[i].version.as_str(), v) {
            proof {
                assert(findings_view(found@)[i as int].version == v@);
            }
            return true;
        }
        proof {
            assert(findings_view(found@)[i as int].version == found@[i as int].version@);
        }
        i = i + 1;
    }
    false
}

fn has_version_at_exec(found: &Vec<PackageFound>, v: &str, loc: &str) -> (r: bool)
    ensures
        r == has_version_at(findings_view(found@), v@, loc@),
{
    let mut i: usize = 0;
    while i < found.len()
        invariant
            0 <= i <= found@.len(),
            forall|j: int|
                0 <= j < i ==> !(findings_view(found@)[j].version == v@ && findings_view(
                    found@,
                )[j].location == loc@),
        decreases found@.len() - i,
    {
        if str_eq(found[i].version.as_str(), v) && str_eq(found[i].location.as_str(), loc) {
            proof {
                assert(findings_view(found@)[i as int].version == v@);
                assert(findings_view(found@)[i as int].location == loc@);
            }
            return true;
        }
        proof {
            assert(findings_view(found@)[i as int].version == found@[i as int].version@);
            assert(findings_view(found@)[i as int].location == found@[i as int].location@);
        }
        i = i + 1;
    }
    false
}

/// Scan importers, packages and snapshots for `package_name` and collect
/// every place it occurs, de-duplicated as `locate_spec` says.
pub fn find_package_in_lock(lock_data: &PnpmLock, package_name: &str) -> (r: Vec<PackageFound>)
    ensures
        findings_view(r@) == locate_spec(*lock_data, package_name@),
{
    let ghost name = package_name@;
    let mut found: Vec<PackageFound> = Vec::new();
    proof {
        assert(findings_view(found@) =~= Seq::<FindingView>::empty());
    }

    // Importers pass.
    let ghost imps = lock_data.importers@;
    let mut i: usize = 0;
    proof {
        assert(imps.skip(0) =~= imps);
    }
    while i < lock_data.importers.len()
        invariant
            lock_data.importers@ == imps,
            0 <= i <= imps.len(),
            name == package_name@,
            importers_pass(imps, name, Seq::empty()) == importers_pass(
                imps.skip(i as int),
                name,
                findings_view(found@),
            ),
        decreases imps.len() - i,
    {
        let path: &String = &lock_data.importers[i].0;
        let imp: &Importer = &lock_data.importers[i].1;
        let display: String = if str_eq(path.as_str(), ".") {
            String::from_str("root")
        } else {
            path.clone()
        };
        let ghost fv0 = findings_view(found@);
        if let Some(d) = dep_find(&imp.dependencies, package_name) {
            let ghost before = found@;
            found.push(
                PackageFound {
                    location: display.clone(),
                    specifier: d.specifier.clone(),
                    version: extract_version(d.version.as_str()),
                    dependency_type: String::from_str("dependencies"),
                },
            );
            proof {
                lemma_findings_push(before, found@.last());
            }
        }
        if let Some(d) = dep_find(&imp.dev_dependencies, package_name) {
            let ghost before = found@;
            found.push(
                PackageFound {
                    location: display.clone(),
                    specifier: d.specifier.clone(),
                    version: extract_version(d.version.as_str()),
                    dependency_type: String::from_str("devDependencies"),
                },
            );
            proof {
                lemma_findings_push(before, found@.last());
            }
        }
        if let Some(d) = dep_find(&imp.optional_dependencies, package_name) {
            let ghost before = found@;
            found.push(
                PackageFound {
                    location: display,
                    specifier: d.specifier.clone(),
                    version: extract_version(d.version.as_str()),
                    dependency_type: String::from_str("optionalDependencies"),
                },
            );
            proof {
                lemma_findings_push(before, found@.last());
            }
        }
        proof {
            assert(imps.skip(i as int)[0] == imps[i as int]);
            assert(imps.skip(i as int).drop_first() =~= imps.skip(i as int + 1));
            assert(findings_view(found@) =~= fv0 + importer_findings(
                imps[i as int].0@,
                imps[i as int].1,
                name,
            ));
        }
        i = i + 1;
    }
    proof {
        assert(imps.skip(imps.len() as int).len() == 0);
    }

    // Packages pass.
    let ghost pkgs = lock_data.packages@;
    let ghost fv1 = findings_view(found@);
    let mut p1 = package_name.to_owned();
    p1.append("@");
    let mut p2 = String::from_str("/");
    p2.append(p1.as_str());
    proof {
        reveal_strlit("@");
        reveal_strlit("/");
        assert(p1@ =~= name.push('@'));
        assert(p2@ =~= seq!['/'] + name.push('@'));
        assert(pkgs.skip(0) =~= pkgs);
    }
    let mut i: usize = 0;
    while i < lock_data.packages.len()
        invariant
            lock_data.packages@ == pkgs,
            0 <= i <= pkgs.len(),
            name == package_name@,
            p1@ == name.push('@'),
            p2@ == seq!['/'] + name.push('@'),
            packages_pass(pkgs, name, fv1) == packages_pass(
                pkgs.skip(i as int),
                name,
                findings_view(found@),
            ),
        decreases pkgs.len() - i,
    {
        let key: &String = &lock_data.packages[i].0;
        let ghost fv0 = findings_view(found@);
        if contains_sub(key.as_str(), p1.as_str()) || contains_sub(key.as_str(), p2.as_str()) {
            let version = extract_version_from_key(key.as_str(), package_name);
            if !has_version_exec(&found, version.as_str()) {
                let ghost before = found@;
                found.push(
                    PackageFound {
                        location: String::from_str("packages section"),
                        specifier: String::new(),
                        version,
                        dependency_type: String::from_str("packages"),
                    },
                );
                proof {
                    lemma_findings_push(before, found@.last());
                }
            }
        }
        proof {
            assert(pkgs.skip(i as int)[0] == pkgs[i as int]);
            assert(pkgs.skip(i as int).drop_first() =~= pkgs.skip(i as int + 1));
            assert(findings_view(found@) =~= packages_step(pkgs[i as int].0@, name, fv0));
        }
        i = i + 1;
    }
    proof {
        assert(pkgs.skip(pkgs.len() as int).len() == 0);
    }

    // Snapshots pass.
    let ghost snaps = lock_data.snapshots@;
    let ghost fv2 = findings_view(found@);
    let mut slash_name = String::from_str("/");
    slash_name.append(package_name);
    proof {
        reveal_strlit("/");
        assert(slash_name@ =~= seq!['/'] + name);
        assert(snaps.skip(0) =~= snaps);
    }
    let mut i: usize = 0;
    while i < lock_data.snapshots.len()
        invariant
            lock_data.snapshots@ == snaps,
            0 <= i <= snaps.len(),
            name == package_name@,
            slash_name@ == seq!['/'] + name,
            snapshots_pass(snaps, name, fv2) == snapshots_pass(
                snaps.skip(i as int),
                name,
                findings_view(found@),
            ),
        decreases snaps.len() - i,
    {
        let key: &String = &lock_data.snapshots[i].0;
        let snap: &SnapshotInfo = &lock_data.snapshots[i].1;
        let ghost fv0 = findings_view(found@);
        if let Some(dep_version) = map_find(&snap.dependencies, package_name) {
            let v = extract_version(dep_version.as_str());
            if !has_version_at_exec(&found, v.as_str(), "snapshots section") {
                let mut dt = String::from_str("snapshots[");
                dt.append(key.as_str());
                dt.append("].dependencies");
                let ghost before = found@;
                found.push(
                    PackageFound {
                        location: String::from_str("snapshots section"),
                        specifier: String::new(),
                        version: v,
                        dependency_type: dt,
                    },
                );
                proof {
                    lemma_findings_push(before, found@.last());
                }
            }
        }
        let key_name = extract_package_name_from_snapshot_key(key.as_str());
        if str_eq(key_name.as_str(), package_name) || ends_with_str(
            key_name.as_str(),
            slash_name.as_str(),
        ) {
            let v = extract_version_from_snapshot_key(key.as_str());
            if v.unicode_len() > 0 && !has_version_at_exec(&found, v.as_str(), "snapshots section") {
                let ghost before = found@;
                found.push(
                    PackageFound {
                        location: String::from_str("snapshots section"),
                        specifier: String::new(),
                        version: v,
                        dependency_type: String::from_str("snapshots"),
                    },
                );
                proof {
                    lemma_findings_push(before, found@.last());
                }
            }
        }
        proof {
            assert(snaps.skip(i as int)[0] == snaps[i as int]);
            assert(snaps.skip(i as int).drop_first() =~= snaps.skip(i as int + 1));
            assert(findings_view(found@) =~= snapshot_step(
                snaps[i as int].0@,
                snaps[i as int].1,
                name,
                fv0,
            ));
        }
        i = i + 1;
    }
    proof {
        assert(snaps.skip(snaps.len() as int).len() == 0);
    }
    found
}

} // verus!
