//! The batch list parser: a tab-separated report file in one of two
//! header-detected formats becomes a list of batch targets.

use vstd::prelude::*;
use crate::strutil::{
    views_of, trim, trim_spec, split_char, split_char_rec, split_sub, split_sub_rec, has_sub,
    contains_sub, lemma_views_push,
};

verus! {

/// One target of a batch check: a package name, the versions it is
/// expected at (empty means any version is acceptable), and optional
/// externally supplied status and detection-date labels.
pub struct BatchPackage {
    pub name: String,
    pub versions: Vec<String>,
    pub status: Option<String>,
    pub detection_date: Option<String>,
}

/// The mathematical content of a `BatchPackage`.
pub struct BatchPackageView {
    pub name: Seq<char>,
    pub versions: Seq<Seq<char>>,
    pub status: Option<Seq<char>>,
    pub detection_date: Option<Seq<char>>,
}

impl View for BatchPackage {
    type V = BatchPackageView;

    open spec fn view(&self) -> BatchPackageView {
        BatchPackageView {
            name: self.name@,
            versions: views_of(self.versions@),
            status: match self.status {
                Some(s) => Some(s@),
                None => None,
            },
            detection_date: match self.detection_date {
                Some(s) => Some(s@),
                None => None,
            },
        }
    }
}

/// The views of a sequence of batch targets.
pub open spec fn packages_view(s: Seq<BatchPackage>) -> Seq<BatchPackageView> {
    s.map_values(|p: BatchPackage| p@)
}

/// The version list encoded in one field: trimmed entries between
/// comma-space separators; no entries when the field is blank.
pub open spec fn versions_list_spec(field: Seq<char>) -> Seq<Seq<char>> {
    let t = trim_spec(field);
    if t.len() == 0 {
        Seq::empty()
    } else {
        split_sub_rec(t, ", "@).map_values(|p: Seq<char>| trim_spec(p))
    }
}

/// Parse one comma-space-separated version-list field.
pub fn parse_versions(field: &str) -> (r: Vec<String>)
    ensures
        views_of(r@) == versions_list_spec(field@),
{
    let t = trim(field);
    if t.as_str().unicode_len() == 0 {
        let r: Vec<String> = Vec::new();
        proof {
            assert(views_of(r@) =~= versions_list_spec(field@));
        }
        return r;
    }
    proof {
        reveal_strlit(", ");
    }
    let parts = split_sub(t.as_str(), ", ");
    let ghost target = versions_list_spec(field@);
    let mut out: Vec<String> = Vec::new();
    let mut i: usize = 0;
    proof {
        assert(views_of(out@) =~= target.take(0));
    }
    while i < parts.len()
        invariant
            views_of(parts@) == split_sub_rec(trim_spec(field@), ", "@),
            trim_spec(field@).len() > 0,
            target == versions_list_spec(field@),
            0 <= i <= parts@.len(),
            target.len() == parts@.len(),
            views_of(out@) == target.take(i as int),
        decreases parts@.len() - i,
    {
        let ghost before = out@;
        let piece = trim(parts[i].as_str());
        out.push(piece);
        proof {
            lemma_views_push(before, out@.last());
            assert(views_of(parts@)[i as int] == parts@[i as int]@);
            assert(target[i as int] == trim_spec(parts@[i as int]@));
            assert(views_of(out@) =~= target.take(i as int + 1));
        }
        i = i + 1;
    }
    proof {
        assert(target.take(parts@.len() as int) =~= target);
    }
    out
}

/// What one data row of the first format yields: skipped when blank or
/// with fewer than three tab-separated fields; otherwise the second field
/// is the name and the third the version list.
pub open spec fn batch_line_a_spec(line: Seq<char>) -> Option<BatchPackageView> {
    if trim_spec(line).len() == 0 {
        None
    } else {
        let parts = split_char_rec(line, '\t');
        if parts.len() < 3 {
            None
        } else {
            Some(
                BatchPackageView {
                    name: trim_spec(parts[1]),
                    versions: versions_list_spec(parts[2]),
                    status: None,
                    detection_date: None,
                },
            )
        }
    }
}

/// The targets of all data rows of the first format, in row order.
pub open spec fn batch_lines_a_spec(lines: Seq<Seq<char>>) -> Seq<BatchPackageView>
    decreases lines.len(),
{
    if lines.len() == 0 {
        Seq::empty()
    } else {
        let rest = batch_lines_a_spec(lines.drop_first());
        match batch_line_a_spec(lines[0]) {
            Some(p) => seq![p] + rest,
            None => rest,
        }
    }
}

/// Parse data rows in the first format: tab-separated, name in the second
/// field, version list in the third. Blank and too-short rows are skipped.
pub fn parse_version1_format(lines: &Vec<String>) -> (r: Vec<BatchPackage>)
    ensures
        packages_view(r@) == batch_lines_a_spec(views_of(lines@)),
{
    let ghost all = views_of(lines@);
    let mut out: Vec<BatchPackage> = Vec::new();
    let mut i: usize = 0;
    proof {
        assert(all.skip(0) =~= all);
        assert(packages_view(out@) + batch_lines_a_spec(all) =~= batch_lines_a_spec(all));
    }
    while i < lines.len()
        invariant
            all == views_of(lines@),
            0 <= i <= lines@.len(),
            batch_lines_a_spec(all) == packages_view(out@) + batch_lines_a_spec(
                all.skip(i as int),
            ),
        decreases lines@.len() - i,
    {
        let ghost before = out@;
        let line = &lines[i];
        proof {
            assert(all.skip(i as int)[0] == all[i as int]);
            assert(all[i as int] == line@);
            assert(all.skip(i as int).drop_first() =~= all.skip(i as int + 1));
        }
        let t = trim(line.as_str());
        if t.as_str().unicode_len() > 0 {
            let parts = split_char(line.as_str(), '\t');
            proof {
                assert(views_of(parts@).len() == parts@.len());
            }
            if parts.len() >= 3 {
                let name = trim(parts[1].as_str());
                let versions = parse_versions(parts[2].as_str());
                out.push(
                    BatchPackage { name, versions, status: None, detection_date: None },
                );
                proof {
                    assert(views_of(parts@)[1] == parts@[1]@);
                    assert(views_of(parts@)[2] == parts@[2]@);
                    assert(out@.last()@ == batch_line_a_spec(line@).unwrap());
                    assert(packages_view(out@) =~= packages_view(before) + seq![
                        batch_line_a_spec(line@).unwrap(),
                    ]);
                    assert(packages_view(out@) + batch_lines_a_spec(all.skip(i as int + 1))
                        =~= batch_lines_a_spec(all));
                }
            }
        }
        i = i + 1;
    }
    proof {
        assert(all.skip(lines@.len() as int).len() == 0);
        assert(packages_view(out@) + batch_lines_a_spec(all.skip(lines@.len() as int))
            =~= packages_view(out@));
    }
    out
}

/// A line with a trailing carriage return loses it.
pub open spec fn strip_cr(s: Seq<char>) -> Seq<char> {
    if s.len() > 0 && s[s.len() - 1] == '\r' {
        s.drop_last()
    } else {
        s
    }
}

/// The lines of a text: pieces between newlines, each stripped of a
/// trailing carriage return; a final newline ends the last line rather
/// than opening an empty one.
pub open spec fn lines_spec(content: Seq<char>) -> Seq<Seq<char>> {
    if content.len() == 0 {
        Seq::empty()
    } else {
        let raw = split_char_rec(content, '\n');
        if content[content.len() - 1] == '\n' {
            raw.drop_last().map_values(|l: Seq<char>| strip_cr(l))
        } else {
            raw.drop_last().map_values(|l: Seq<char>| strip_cr(l)).push(raw.last())
        }
    }
}

/// Split a text into lines.
pub fn split_lines(content: &str) -> (r: Vec<String>)
    ensures
        views_of(r@) == lines_spec(content@),
{
    let n: usize = content.unicode_len();
    if n == 0 {
        let r: Vec<String> = Vec::new();
        proof {
            assert(views_of(r@) =~= lines_spec(content@));
        }
        return r;
    }
    let mut parts = split_char(content, '\n');
    let ends_nl = content.get_char(n - 1) == '\n';
    if ends_nl {
        proof {
            assert(views_of(parts@).len() >= 1);
        }
        let _dropped = parts.pop();
    }
    let ghost raw = split_char_rec(content@, '\n');
    let ghost target = lines_spec(content@);
    let mut out: Vec<String> = Vec::new();
    let mut i: usize = 0;
    proof {
        if ends_nl {
            assert(views_of(parts@) =~= raw.drop_last());
        }
        assert(views_of(out@) =~= target.take(0));
    }
    while i < parts.len()
        invariant
            n == content@.len(),
            n > 0,
            raw == split_char_rec(content@, '\n'),
            target == lines_spec(content@),
            ends_nl == (content@[n - 1] == '\n'),
            ends_nl ==> views_of(parts@) == raw.drop_last(),
            !ends_nl ==> views_of(parts@) == raw,
            target.len() == parts@.len(),
            0 <= i <= parts@.len(),
            views_of(out@) == target.take(i as int),
        decreases parts@.len() - i,
    {
        let ghost before = out@;
        let is_last = i + 1 == parts.len();
        let piece: String = if ends_nl || !is_last {
            let p = &parts[i];
            let m: usize = p.as_str().unicode_len();
            if m > 0 && p.as_str().get_char(m - 1) == '\r' {
                let cut = p.as_str().substring_char(0, m - 1);
                proof {
                    assert(cut@ =~= p@.drop_last());
                }
                cut.to_owned()
            } else {
                p.clone()
            }
        } else {
            parts[i].clone()
        };
        out.push(piece);
        proof {
            lemma_views_push(before, out@.last());
            assert(views_of(parts@)[i as int] == parts@[i as int]@);
            assert(views_of(out@) =~= target.take(i as int + 1));
        }
        i = i + 1;
    }
    proof {
        assert(target.take(parts@.len() as int) =~= target);
    }
    out
}

/// Why a batch list could not be parsed.
#[derive(Clone, Copy, Debug, PartialEq, Eq, Structural)]
pub enum BatchParseError {
    /// The first line matches neither recognized header signature.
    UnrecognizedHeader,
}

/// What a batch report text yields: nothing for an empty text, the parsed
/// data rows under a recognized header, and no answer at all (an error)
/// otherwise.
pub open spec fn parse_batch_spec(content: Seq<char>) -> Option<Seq<BatchPackageView>> {
    let ls = lines_spec(content);
    if ls.len() == 0 {
        Some(Seq::empty())
    } else if has_sub(ls[0], "Package Name\tVersion(s)"@) {
        Some(batch_lines_a_spec(ls.drop_first()))
    } else if has_sub(ls[0], "Package Name\tCompromised Version(s)\tDetection Date\tStatus"@) {
        Some(batch_lines_b_spec(ls.drop_first()))
    } else {
        None
    }
}

fn tail_strings(v: &Vec<String>) -> (r: Vec<String>)
    requires
        v@.len() >= 1,
    ensures
        views_of(r@) == views_of(v@).drop_first(),
{
    let mut out: Vec<String> = Vec::new();
    let mut i: usize = 1;
    proof {
        assert(views_of(out@) =~= views_of(v@).drop_first().take(0));
    }
    while i < v.len()
        invariant
            1 <= i <= v@.len(),
            views_of(out@) == views_of(v@).drop_first().take(i - 1),
        decreases v@.len() - i,
    {
        let ghost before = out@;
        out.push(v[i].clone());
        proof {
            lemma_views_push(before, out@.last());
            assert(views_of(out@) =~= views_of(v@).drop_first().take(i as int));
        }
        i = i + 1;
    }
    proof {
        assert(views_of(v@).drop_first().take(v@.len() - 1) =~= views_of(v@).drop_first());
    }
    out
}

/// Parse a batch report text. The first line decides the format; a text
/// whose header matches neither signature is rejected, and an empty text
/// yields no targets.
pub fn parse_batch_content(content: &str) -> (r: Result<Vec<BatchPackage>, BatchParseError>)
    ensures
        r matches Ok(v) ==> parse_batch_spec(content@) == Some(packages_view(v@)),
        r is Err ==> parse_batch_spec(content@) is None,
{
    let lines = split_lines(content);
    if lines.len() == 0 {
        proof {
            assert(views_of(lines@).len() == 0);
        }
        let empty: Vec<BatchPackage> = Vec::new();
        proof {
            assert(packages_view(empty@) =~= Seq::<BatchPackageView>::empty());
        }
        return Ok(empty);
    }
    proof {
        assert(views_of(lines@)[0] == lines@[0]@);
    }
    let header = &lines[0];
    if contains_sub(header.as_str(), "Package Name\tVersion(s)") {
        let data = tail_strings(&lines);
        Ok(parse_version1_format(&data))
    } else if contains_sub(
        header.as_str(),
        "Package Name\tCompromised Version(s)\tDetection Date\tStatus",
    ) {
        let data = tail_strings(&lines);
        Ok(parse_version2_format(&data))
    } else {
        Err(BatchParseError::UnrecognizedHeader)
    }
}

/// What one data row of the second format yields: skipped when blank or
/// with fewer than four fields; otherwise name, version list, detection
/// date and status sit in the first four fields.
pub open spec fn batch_line_b_spec(line: Seq<char>) -> Option<BatchPackageView> {
    if trim_spec(line).len() == 0 {
        None
    } else {
        let parts = split_char_rec(line, '\t');
        if parts.len() < 4 {
            None
        } else {
            Some(
                BatchPackageView {
                    name: trim_spec(parts[0]),
                    versions: versions_list_spec(parts[1]),
                    status: Some(trim_spec(parts[3])),
                    detection_date: Some(trim_spec(parts[2])),
                },
            )
        }
    }
}

/// The targets of all data rows of the second format, in row order.
pub open spec fn batch_lines_b_spec(lines: Seq<Seq<char>>) -> Seq<BatchPackageView>
    decreases lines.len(),
{
    if lines.len() == 0 {
        Seq::empty()
    } else {
        let rest = batch_lines_b_spec(lines.drop_first());
        match batch_line_b_spec(lines[0]) {
            Some(p) => seq![p] + rest,
            None => rest,
        }
    }
}

/// Parse data rows in the second format: name, version list, detection
/// date and status in the first four tab-separated fields.
pub fn parse_version2_format(lines: &Vec<String>) -> (r: Vec<BatchPackage>)
    ensures
        packages_view(r@) == batch_lines_b_spec(views_of(lines@)),
{
    let ghost all = views_of(lines@);
    let mut out: Vec<BatchPackage> = Vec::new();
    let mut i: usize = 0;
    proof {
        assert(all.skip(0) =~= all);
        assert(packages_view(out@) + batch_lines_b_spec(all) =~= batch_lines_b_spec(all));
    }
    while i < lines.len()
        invariant
            all == views_of(lines@),
            0 <= i <= lines@.len(),
            batch_lines_b_spec(all) == packages_view(out@) + batch_lines_b_spec(
                all.skip(i as int),
            ),
        decreases lines@.len() - i,
    {
        let ghost before = out@;
        let line = &lines[i];
        proof {
            assert(all.skip(i as int)[0] == all[i as int]);
            assert(all[i as int] == line@);
            assert(all.skip(i as int).drop_first() =~= all.skip(i as int + 1));
        }
        let t = trim(line.as_str());
        if t.as_str().unicode_len() > 0 {
            let parts = split_char(line.as_str(), '\t');
            proof {
                assert(views_of(parts@).len() == parts@.len());
            }
            if parts.len() >= 4 {
                let name = trim(parts[0].as_str());
                let versions = parse_versions(parts[1].as_str());
                let detection_date = Some(trim(parts[2].as_str()));
                let status = Some(trim(parts[3].as_str()));
                out.push(BatchPackage { name, versions, status, detection_date });
                proof {
                    assert(views_of(parts@)[0] == parts@[0]@);
                    assert(views_of(parts@)[1] == parts@[1]@);
                    assert(views_of(parts@)[2] == parts@[2]@);
                    assert(views_of(parts@)[3] == parts@[3]@);
                    assert(out@.last()@ == batch_line_b_spec(line@).unwrap());
                    assert(packages_view(out@) =~= packages_view(before) + seq![
                        batch_line_b_spec(line@).unwrap(),
                    ]);
                    assert(packages_view(out@) + batch_lines_b_spec(all.skip(i as int + 1))
                        =~= batch_lines_b_spec(all));
                }
            }
        }
        i = i + 1;
    }
    proof {
        assert(all.skip(lines@.len() as int).len() == 0);
        assert(packages_view(out@) + batch_lines_b_spec(all.skip(lines@.len() as int))
            =~= packages_view(out@));
    }
    out
}

} // verus!
