//! Package description records: a line that is a field marker announces the
//! field's value on the next line.

use crate::text::{lines_of, same_text, split_lines, texts};
use vstd::prelude::*;
use vstd::string::*;

verus! {

/// One package as a description record or a repository database names it.
#[derive(Debug)]
pub struct Package {
    pub name: String,
    pub version: String,
    pub repo: String,
}

/// What a `Package` holds, as character sequences.
pub struct PackageView {
    pub name: Seq<char>,
    pub version: Seq<char>,
    pub repo: Seq<char>,
}

impl View for Package {
    type V = PackageView;

    open spec fn view(&self) -> PackageView {
        PackageView { name: self.name@, version: self.version@, repo: self.repo@ }
    }
}

/// The value of a field that no record has set.
pub open spec fn unset() -> Seq<char> {
    "none"@
}

/// The line that announces a package's name.
pub open spec fn name_marker() -> Seq<char> {
    "%NAME%"@
}

/// The line that announces a package's version.
pub open spec fn version_marker() -> Seq<char> {
    "%VERSION%"@
}

/// The value that the markers among the first `upto` lines give: the line
/// after the last of them that has a line after it.
pub open spec fn field_after(lines: Seq<Seq<char>>, marker: Seq<char>, upto: int) -> Option<
    Seq<char>,
>
    decreases upto,
{
    if upto <= 0 {
        None
    } else if lines[upto - 1] == marker && upto < lines.len() {
        Some(lines[upto])
    } else {
        field_after(lines, marker, upto - 1)
    }
}

/// The value of the field that `marker` announces in a record of these lines.
pub open spec fn field_of(lines: Seq<Seq<char>>, marker: Seq<char>) -> Seq<char> {
    match field_after(lines, marker, lines.len() as int) {
        Some(value) => value,
        None => unset(),
    }
}

/// The package that a description record describes. Its repository is unset.
pub open spec fn record_of(data: Seq<char>) -> PackageView {
    let lines = lines_of(data);
    PackageView {
        name: field_of(lines, name_marker()),
        version: field_of(lines, version_marker()),
        repo: unset(),
    }
}

impl Package {
    pub fn new(name: String, version: String, repo: String) -> (p: Package)
        ensures
            p.name == name,
            p.version == version,
            p.repo == repo,
    {
        Package { name, version, repo }
    }

    /// The package of which nothing is known: every field is unset.
    pub fn default() -> (p: Package)
        ensures
            p@ == (PackageView { name: unset(), version: unset(), repo: unset() }),
    {
        Package::new("none".to_owned(), "none".to_owned(), "none".to_owned())
    }

    /// A copy of this package.
    pub fn duplicate(&self) -> (p: Package)
        ensures
            p@ == self@,
    {
        Package {
            name: self.name.clone(),
            version: self.version.clone(),
            repo: self.repo.clone(),
        }
    }
}

/// Reads one package description record. A marker without a line after it
/// sets nothing, and a record without a marker leaves the field unset; no
/// text is refused.
pub fn read_package_desc(data: String) -> (r: Result<Package, String>)
    ensures
        r is Ok,
        r->Ok_0@ == record_of(data@),
{
    let mut package = Package::default();
    let lines = split_lines(data.as_str());
    let n = lines.len();
    let mut i: usize = 0;
    while i < n
        invariant
            i <= n,
            n == lines@.len(),
            texts(lines@) == lines_of(data@),
            package.repo@ == unset(),
            package.name@ == match field_after(texts(lines@), name_marker(), i as int) {
                Some(value) => value,
                None => unset(),
            },
            package.version@ == match field_after(texts(lines@), version_marker(), i as int) {
                Some(value) => value,
                None => unset(),
            },
        decreases n - i,
    {
        if i + 1 < n {
            if same_text(lines[i].as_str(), "%NAME%") {
                package.name = lines[i + 1].clone();
            }
            if same_text(lines[i].as_str(), "%VERSION%") {
                package.version = lines[i + 1].clone();
            }
        }
        i += 1;
    }
    Ok(package)
}

/// Where the last marker with a line after it stands at line `at`, the field
/// has the text of line `at + 1`.
pub proof fn lemma_field_follows_marker(
    lines: Seq<Seq<char>>,
    marker: Seq<char>,
    at: int,
    upto: int,
)
    requires
        0 <= at < upto <= lines.len(),
        at + 1 < lines.len(),
        lines[at] == marker,
        forall|j: int| at < j < lines.len() - 1 ==> lines[j] != marker,
    ensures
        field_after(lines, marker, upto) == Some(lines[at + 1]),
    decreases upto,
{
    if upto - 1 > at {
        lemma_field_follows_marker(lines, marker, at, upto - 1);
    }
}

/// Where no line but perhaps the last is the marker, no value is found.
pub proof fn lemma_field_without_marker(lines: Seq<Seq<char>>, marker: Seq<char>, upto: int)
    requires
        upto <= lines.len(),
        forall|j: int| 0 <= j < lines.len() - 1 ==> lines[j] != marker,
    ensures
        field_after(lines, marker, upto) is None,
    decreases upto,
{
    if upto > 0 {
        lemma_field_without_marker(lines, marker, upto - 1);
    }
}

/// A record in which line `at` is the name marker, has a line after it, and
/// is followed by no further name marker that has one, names the package by
/// line `at + 1`.
pub proof fn law_name_follows_marker(data: Seq<char>, at: int)
    requires
        0 <= at,
        at + 1 < lines_of(data).len(),
        lines_of(data)[at] == name_marker(),
        forall|j: int| at < j < lines_of(data).len() - 1 ==> lines_of(data)[j] != name_marker(),
    ensures
        record_of(data).name == lines_of(data)[at + 1],
{
    let lines = lines_of(data);
    lemma_field_follows_marker(lines, name_marker(), at, lines.len() as int);
}

/// The same for the version marker.
pub proof fn law_version_follows_marker(data: Seq<char>, at: int)
    requires
        0 <= at,
        at + 1 < lines_of(data).len(),
        lines_of(data)[at] == version_marker(),
        forall|j: int|
            at < j < lines_of(data).len() - 1 ==> lines_of(data)[j] != version_marker(),
    ensures
        record_of(data).version == lines_of(data)[at + 1],
{
    let lines = lines_of(data);
    lemma_field_follows_marker(lines, version_marker(), at, lines.len() as int);
}

/// A record none of whose lines is the name marker leaves the name unset, and
/// one without a version marker leaves the version unset.
pub proof fn law_unmarked_field_is_unset(data: Seq<char>)
    ensures
        (forall|j: int| 0 <= j < lines_of(data).len() ==> lines_of(data)[j] != name_marker())
            ==> record_of(data).name == unset(),
        (forall|j: int| 0 <= j < lines_of(data).len() ==> lines_of(data)[j] != version_marker())
            ==> record_of(data).version == unset(),
        record_of(data).repo == unset(),
{
    let lines = lines_of(data);
    if forall|j: int| 0 <= j < lines.len() ==> lines[j] != name_marker() {
        lemma_field_without_marker(lines, name_marker(), lines.len() as int);
    }
    if forall|j: int| 0 <= j < lines.len() ==> lines[j] != version_marker() {
        lemma_field_without_marker(lines, version_marker(), lines.len() as int);
    }
}

} // verus!
