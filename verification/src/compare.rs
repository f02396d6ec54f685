//! The comparison of the local packages with the remote ones: which of them
//! the repositories offer in another version, ordered for display.

use crate::packages::PackageMap;
use crate::record::{Package, PackageView};
use crate::text::same_text;
use vstd::prelude::*;
use vstd::string::*;

verus! {

#[derive(Debug, Clone, Copy, PartialEq, Eq, Structural)]
pub enum PackageComparison {
    Same,
    Different,
}

/// An installed package and the package of the same name that a repository
/// offers in another version.
#[derive(Debug)]
pub struct OutdatedPair {
    pub local: Package,
    pub remote: Package,
}

pub struct PairView {
    pub local: PackageView,
    pub remote: PackageView,
}

impl View for OutdatedPair {
    type V = PairView;

    open spec fn view(&self) -> PairView {
        PairView { local: self.local@, remote: self.remote@ }
    }
}

pub open spec fn pairs_view(v: Seq<OutdatedPair>) -> Seq<PairView> {
    Seq::new(v.len(), |i: int| v[i]@)
}

/// Whether `a` comes before `b` in the lexicographic order of their
/// characters, as far as the characters from position `from` on decide.
pub open spec fn before_from(a: Seq<char>, b: Seq<char>, from: int) -> bool
    decreases a.len() - from,
{
    if from < 0 || from >= b.len() {
        false
    } else if from >= a.len() {
        true
    } else if a[from] != b[from] {
        (a[from] as int) < (b[from] as int)
    } else {
        before_from(a, b, from + 1)
    }
}

/// Whether `a` comes before `b` in the lexicographic order of their
/// characters.
pub open spec fn text_before(a: Seq<char>, b: Seq<char>) -> bool {
    before_from(a, b, 0)
}

/// Whether `x` is displayed before `y`: by the repository of the remote
/// package, then by its name.
pub open spec fn pair_before(x: PairView, y: PairView) -> bool {
    text_before(x.remote.repo, y.remote.repo) || (x.remote.repo == y.remote.repo && text_before(
        x.remote.name,
        y.remote.name,
    ))
}

/// Whether both maps have a package called `name`, in versions that differ.
pub open spec fn is_outdated(
    local: Map<Seq<char>, PackageView>,
    remote: Map<Seq<char>, PackageView>,
    name: Seq<char>,
) -> bool {
    local.dom().contains(name) && remote.dom().contains(name) && local[name].version
        != remote[name].version
}

/// Whether some pair of `pairs` is about the package called `name`.
pub open spec fn listed(pairs: Seq<PairView>, name: Seq<char>) -> bool {
    exists|k: int| 0 <= k < pairs.len() && #[trigger] pairs[k].local.name == name
}

/// Whether a pair holds what the two maps have for one outdated package.
pub open spec fn pair_of_maps(
    pair: PairView,
    local: Map<Seq<char>, PackageView>,
    remote: Map<Seq<char>, PackageView>,
) -> bool {
    &&& is_outdated(local, remote, pair.local.name)
    &&& pair.local == local[pair.local.name]
    &&& pair.remote == remote[pair.local.name]
}

/// Whether `pairs` is the ordered list of the outdated packages: a pair for
/// each package that both maps have in versions that differ, no other pair,
/// and each pair displayed before the next.
pub open spec fn lists_outdated(
    pairs: Seq<PairView>,
    local: Map<Seq<char>, PackageView>,
    remote: Map<Seq<char>, PackageView>,
) -> bool {
    &&& forall|k: int| 0 <= k < pairs.len() ==> pair_of_maps(#[trigger] pairs[k], local, remote)
    &&& forall|name: Seq<char>| #[trigger]
        is_outdated(local, remote, name) ==> listed(pairs, name)
    &&& forall|a: int, b: int|
        0 <= a < b < pairs.len() ==> pair_before(#[trigger] pairs[a], #[trigger] pairs[b])
}

pub proof fn lemma_before_transitive(a: Seq<char>, b: Seq<char>, c: Seq<char>, from: int)
    requires
        before_from(a, b, from),
        before_from(b, c, from),
    ensures
        before_from(a, c, from),
    decreases a.len() - from,
{
    if from < a.len() && a[from] == b[from] && b[from] == c[from] {
        lemma_before_transitive(a, b, c, from + 1);
    }
}

pub proof fn lemma_before_total(a: Seq<char>, b: Seq<char>, from: int)
    requires
        0 <= from,
        !before_from(a, b, from),
        !before_from(b, a, from),
        from <= a.len(),
        from <= b.len(),
    ensures
        a.len() == b.len(),
        forall|k: int| from <= k < a.len() ==> a[k] == b[k],
    decreases a.len() - from,
{
    if from < a.len() && from < b.len() {
        lemma_before_total(a, b, from + 1);
    }
}

/// Of three pairs of which each is displayed before the next, the first is
/// displayed before the last.
pub proof fn lemma_pair_transitive(x: PairView, y: PairView, z: PairView)
    requires
        pair_before(x, y),
        pair_before(y, z),
    ensures
        pair_before(x, z),
{
    if text_before(x.remote.repo, y.remote.repo) && text_before(y.remote.repo, z.remote.repo) {
        lemma_before_transitive(x.remote.repo, y.remote.repo, z.remote.repo, 0);
    }
    if text_before(x.remote.name, y.remote.name) && text_before(y.remote.name, z.remote.name) {
        lemma_before_transitive(x.remote.name, y.remote.name, z.remote.name, 0);
    }
}

/// Two pairs of which neither is displayed before the other have the same
/// remote repository and name.
pub proof fn lemma_pair_total(x: PairView, y: PairView)
    requires
        !pair_before(x, y),
        !pair_before(y, x),
    ensures
        x.remote.repo == y.remote.repo,
        x.remote.name == y.remote.name,
{
    lemma_before_total(x.remote.repo, y.remote.repo, 0);
    assert(x.remote.repo =~= y.remote.repo);
    lemma_before_total(x.remote.name, y.remote.name, 0);
    assert(x.remote.name =~= y.remote.name);
}

pub proof fn lemma_before_irreflexive(a: Seq<char>, from: int)
    ensures
        !before_from(a, a, from),
    decreases a.len() - from,
{
    if 0 <= from < a.len() {
        lemma_before_irreflexive(a, from + 1);
    }
}

/// No pair is displayed before itself.
pub proof fn lemma_pair_irreflexive(x: PairView)
    ensures
        !pair_before(x, x),
{
    lemma_before_irreflexive(x.remote.repo, 0);
    lemma_before_irreflexive(x.remote.name, 0);
}

/// Two ordered lists of the outdated packages of the same maps agree in
/// their first `upto` pairs.
pub proof fn lemma_same_prefix(
    a: Seq<PairView>,
    b: Seq<PairView>,
    local: Map<Seq<char>, PackageView>,
    remote: Map<Seq<char>, PackageView>,
    upto: int,
)
    requires
        lists_outdated(a, local, remote),
        lists_outdated(b, local, remote),
        0 <= upto <= a.len(),
        upto <= b.len(),
    ensures
        forall|m: int| 0 <= m < upto ==> a[m] == b[m],
    decreases upto,
{
    if upto > 0 {
        lemma_same_prefix(a, b, local, remote, upto - 1);
        let k = upto - 1;
        assert(pair_of_maps(a[k], local, remote));
        assert(pair_of_maps(b[k], local, remote));
        assert(listed(b, a[k].local.name));
        assert(listed(a, b[k].local.name));
        let j = choose|j: int| 0 <= j < b.len() && #[trigger] b[j].local.name == a[k].local.name;
        let i = choose|i: int| 0 <= i < a.len() && #[trigger] a[i].local.name == b[k].local.name;
        assert(pair_of_maps(b[j], local, remote));
        assert(pair_of_maps(a[i], local, remote));
        assert(b[j] == a[k]);
        assert(a[i] == b[k]);
        lemma_pair_irreflexive(a[k]);
        if j < k {
            assert(b[j] == a[j]);
            assert(pair_before(a[j], a[k]));
        } else if i < k {
            assert(a[i] == b[i]);
            lemma_pair_irreflexive(b[k]);
            assert(pair_before(b[i], b[k]));
        } else if j > k && i > k {
            assert(pair_before(b[k], b[j]));
            assert(pair_before(a[k], a[i]));
            lemma_pair_transitive(a[k], b[k], a[k]);
        }
    }
}

/// The ordered list of the outdated packages of two maps is determined by
/// the maps: two lists that both meet the description are the same list, so
/// comparing the same maps again gives the same pairs in the same order.
pub proof fn law_listing_is_unique(
    a: Seq<PairView>,
    b: Seq<PairView>,
    local: Map<Seq<char>, PackageView>,
    remote: Map<Seq<char>, PackageView>,
)
    requires
        lists_outdated(a, local, remote),
        lists_outdated(b, local, remote),
    ensures
        a == b,
{
    let n = if a.len() <= b.len() { a.len() as int } else { b.len() as int };
    lemma_same_prefix(a, b, local, remote, n);
    if a.len() > n {
        assert(pair_of_maps(a[n], local, remote));
        assert(listed(b, a[n].local.name));
        let j = choose|j: int| 0 <= j < b.len() && #[trigger] b[j].local.name == a[n].local.name;
        assert(pair_of_maps(b[j], local, remote));
        assert(a[j] == a[n]);
        lemma_pair_irreflexive(a[n]);
        assert(pair_before(a[j], a[n]));
    }
    if b.len() > n {
        assert(pair_of_maps(b[n], local, remote));
        assert(listed(a, b[n].local.name));
        let j = choose|j: int| 0 <= j < a.len() && #[trigger] a[j].local.name == b[n].local.name;
        assert(pair_of_maps(a[j], local, remote));
        assert(b[j] == b[n]);
        lemma_pair_irreflexive(b[n]);
        assert(pair_before(b[j], b[n]));
    }
    assert(a =~= b);
}

/// In an ordered list of the outdated packages no package is listed twice,
/// and the pairs are in strictly ascending order of repository and name.
pub proof fn law_listing_is_strict(
    pairs: Seq<PairView>,
    local: Map<Seq<char>, PackageView>,
    remote: Map<Seq<char>, PackageView>,
    a: int,
    b: int,
)
    requires
        lists_outdated(pairs, local, remote),
        0 <= a < b < pairs.len(),
    ensures
        pair_before(pairs[a], pairs[b]),
        !pair_before(pairs[b], pairs[a]),
        pairs[a].local.name != pairs[b].local.name,
{
    assert(pair_of_maps(pairs[a], local, remote));
    assert(pair_of_maps(pairs[b], local, remote));
    lemma_pair_irreflexive(pairs[a]);
    if pair_before(pairs[b], pairs[a]) {
        lemma_pair_transitive(pairs[a], pairs[b], pairs[a]);
    }
}

/// Whether `a` comes before `b` in lexicographic order.
pub fn text_less(a: &str, b: &str) -> (r: bool)
    ensures
        r == text_before(a@, b@),
{
    let na = a.unicode_len();
    let nb = b.unicode_len();
    let mut i: usize = 0;
    while i < na && i < nb
        invariant
            na == a@.len(),
            nb == b@.len(),
            i <= na,
            i <= nb,
            before_from(a@, b@, i as int) == text_before(a@, b@),
        decreases na - i,
    {
        let ca: u32 = a.get_char(i) as u32;
        let cb: u32 = b.get_char(i) as u32;
        if ca != cb {
            return ca < cb;
        }
        i += 1;
    }
    i < nb
}

/// Whether `x` is displayed before `y`.
pub fn pair_less(x: &OutdatedPair, y: &OutdatedPair) -> (r: bool)
    ensures
        r == pair_before(x@, y@),
{
    if text_less(x.remote.repo.as_str(), y.remote.repo.as_str()) {
        true
    } else if same_text(x.remote.repo.as_str(), y.remote.repo.as_str()) {
        text_less(x.remote.name.as_str(), y.remote.name.as_str())
    } else {
        false
    }
}

/// Whether two packages have the same version: the same characters, with no
/// thought of which version is the later one.
pub fn compare_package_versions(pkg1: &Package, pkg2: &Package) -> (c: PackageComparison)
    ensures
        c == if pkg1@.version == pkg2@.version {
            PackageComparison::Same
        } else {
            PackageComparison::Different
        },
{
    if same_text(pkg1.version.as_str(), pkg2.version.as_str()) {
        PackageComparison::Same
    } else {
        PackageComparison::Different
    }
}

/// The position of the first pair before which `pair` is displayed, or the
/// length of `pairs` where there is none.
fn slot_for(pairs: &Vec<OutdatedPair>, pair: &OutdatedPair) -> (at: usize)
    ensures
        at <= pairs@.len(),
        forall|k: int| 0 <= k < at ==> !pair_before(pair@, #[trigger] pairs@[k]@),
        at < pairs@.len() ==> pair_before(pair@, pairs@[at as int]@),
{
    let n = pairs.len();
    let mut at: usize = 0;
    while at < n && !pair_less(pair, &pairs[at])
        invariant
            at <= n,
            n == pairs@.len(),
            forall|k: int| 0 <= k < at ==> !pair_before(pair@, #[trigger] pairs@[k]@),
        decreases n - at,
    {
        at += 1;
    }
    at
}

/// Whether one of the first `upto` entries of `map` is called `name`.
pub open spec fn seen(map: PackageMap, upto: int, name: Seq<char>) -> bool {
    exists|j: int| 0 <= j < upto && #[trigger] map.name_at(j) == name
}

/// Lists the packages that both maps have in versions that differ, ordered
/// by the repository and then the name of the remote package.
pub fn find_outdated(local: &PackageMap, remote: &PackageMap) -> (out: Vec<OutdatedPair>)
    requires
        local.wf(),
        remote.wf(),
    ensures
        lists_outdated(pairs_view(out@), local@, remote@),
{
    let n = local.entries.len();
    let mut out: Vec<OutdatedPair> = Vec::new();
    let mut i: usize = 0;
    while i < n
        invariant
            i <= n,
            n == local.entries@.len(),
            local.wf(),
            remote.wf(),
            forall|k: int|
                0 <= k < out@.len() ==> {
                    &&& pair_of_maps(#[trigger] pairs_view(out@)[k], local@, remote@)
                    &&& pairs_view(out@)[k].remote.name == pairs_view(out@)[k].local.name
                    &&& seen(*local, i as int, pairs_view(out@)[k].local.name)
                },
            forall|j: int|
                0 <= j < i && is_outdated(local@, remote@, #[trigger] local.name_at(j)) ==> listed(
                    pairs_view(out@),
                    local.name_at(j),
                ),
            forall|a: int, b: int|
                0 <= a < b < out@.len() ==> pair_before(
                    #[trigger] pairs_view(out@)[a],
                    #[trigger] pairs_view(out@)[b],
                ),
        decreases n - i,
    {
        let mine = &local.entries[i];
        proof {
            local.lemma_entry(i as int);
        }
        let ghost before = pairs_view(out@);
        let ghost name = local.name_at(i as int);
        let mut grown = false;
        let ghost mut at: int = 0;
        if let Some(theirs) = remote.get(mine.name.as_str()) {
            if let PackageComparison::Different = compare_package_versions(mine, theirs) {
                let pair = OutdatedPair { local: mine.duplicate(), remote: theirs.duplicate() };
                let slot = slot_for(&out, &pair);
                proof {
                    remote.lemma_member(name);
                    at = slot as int;
                    assert(pairs_view(out@.insert(at, pair)) =~= before.insert(at, pair@));
                    assert forall|k: int| 0 <= k < at implies pair_before(
                        #[trigger] before[k],
                        pair@,
                    ) by {
                        assert(!pair_before(pair@, out@[k]@));
                        if !pair_before(before[k], pair@) {
                            lemma_pair_total(before[k], pair@);
                            let j = choose|j: int|
                                0 <= j < i && #[trigger] local.name_at(j) == before[k].local.name;
                            assert(local.name_at(j) == local.name_at(i as int));
                        }
                    }
                    assert forall|k: int| at <= k < before.len() implies pair_before(
                        pair@,
                        #[trigger] before[k],
                    ) by {
                        assert(pair_before(pair@, before[at]));
                        if at < k {
                            lemma_pair_transitive(pair@, before[at], before[k]);
                        }
                    }
                }
                out.insert(slot, pair);
                grown = true;
            }
        }
        proof {
            let after = pairs_view(out@);
            if grown {
                assert(after == before.insert(at, after[at]));
                assert forall|j: int|
                    0 <= j < i + 1 && is_outdated(
                        local@,
                        remote@,
                        #[trigger] local.name_at(j),
                    ) implies listed(after, local.name_at(j)) by {
                    if j < i {
                        let k = choose|k: int|
                            0 <= k < before.len() && #[trigger] before[k].local.name
                                == local.name_at(j);
                        if k < at {
                            assert(after[k] == before[k]);
                        } else {
                            assert(after[k + 1] == before[k]);
                        }
                    } else {
                        assert(after[at].local.name == name);
                    }
                }
                assert forall|k: int| 0 <= k < after.len() implies {
                    &&& pair_of_maps(#[trigger] after[k], local@, remote@)
                    &&& after[k].remote.name == after[k].local.name
                    &&& seen(*local, i + 1, after[k].local.name)
                } by {
                    if k < at {
                        assert(after[k] == before[k]);
                        let j = choose|j: int|
                            0 <= j < i && #[trigger] local.name_at(j) == before[k].local.name;
                        assert(local.name_at(j) == after[k].local.name);
                    } else if k > at {
                        assert(after[k] == before[k - 1]);
                        let j = choose|j: int|
                            0 <= j < i && #[trigger] local.name_at(j) == before[k - 1].local.name;
                        assert(local.name_at(j) == after[k].local.name);
                    } else {
                        assert(local.name_at(i as int) == after[k].local.name);
                    }
                }
                assert forall|a: int, b: int| 0 <= a < b < after.len() implies pair_before(
                    #[trigger] after[a],
                    #[trigger] after[b],
                ) by {
                    let x = if a < at { a } else { a - 1 };
                    let y = if b < at { b } else { b - 1 };
                    if a != at && b != at {
                        assert(after[a] == before[x]);
                        assert(after[b] == before[y]);
                    } else if a == at {
                        assert(after[b] == before[y]);
                    } else {
                        assert(after[a] == before[x]);
                    }
                }
            } else {
                assert forall|k: int| 0 <= k < after.len() implies seen(
                    *local,
                    i + 1,
                    #[trigger] after[k].local.name,
                ) by {
                    let j = choose|j: int|
                        0 <= j < i && #[trigger] local.name_at(j) == after[k].local.name;
                    assert(local.name_at(j) == after[k].local.name);
                }
            }
        }
        i += 1;
    }
    proof {
        assert forall|name: Seq<char>| #[trigger]
            is_outdated(local@, remote@, name) implies listed(pairs_view(out@), name) by {
            local.lemma_member(name);
            let j = choose|j: int| local.holds(j, name);
            assert(local.name_at(j) == name);
        }
    }
    out
}

/// The width of the column that names a pair's package: the repository, a
/// slash and the name.
pub open spec fn id_width(pair: PairView) -> int {
    (pair.remote.repo.len() + 1 + pair.local.name.len()) as int
}

/// The greatest `id_width` among the first `upto` pairs; 0 where there is
/// none.
pub open spec fn widest_id(pairs: Seq<PairView>, upto: int) -> int
    decreases upto,
{
    if upto <= 0 {
        0
    } else if id_width(pairs[upto - 1]) > widest_id(pairs, upto - 1) {
        id_width(pairs[upto - 1])
    } else {
        widest_id(pairs, upto - 1)
    }
}

/// The greatest length of a local version among the first `upto` pairs; 0
/// where there is none.
pub open spec fn widest_version(pairs: Seq<PairView>, upto: int) -> int
    decreases upto,
{
    if upto <= 0 {
        0
    } else if pairs[upto - 1].local.version.len() > widest_version(pairs, upto - 1) {
        pairs[upto - 1].local.version.len() as int
    } else {
        widest_version(pairs, upto - 1)
    }
}

/// A width as the machine can hold it.
pub open spec fn clipped(width: int) -> int {
    if width > usize::MAX {
        usize::MAX as int
    } else {
        width
    }
}

/// What the comparison hands to the display: the outdated packages in their
/// order, their number, and the widths of the two columns that are aligned.
#[derive(Debug)]
pub struct Report {
    pub pairs: Vec<OutdatedPair>,
    pub count: usize,
    pub name_width: usize,
    pub version_width: usize,
}

/// Compares the installed packages with the remote ones.
pub fn compare_packages(local: &PackageMap, remote: &PackageMap) -> (report: Report)
    requires
        local.wf(),
        remote.wf(),
    ensures
        lists_outdated(pairs_view(report.pairs@), local@, remote@),
        report.count == report.pairs@.len(),
        report.name_width == clipped(
            widest_id(pairs_view(report.pairs@), report.pairs@.len() as int),
        ),
        report.version_width == widest_version(
            pairs_view(report.pairs@),
            report.pairs@.len() as int,
        ),
{
    let pairs = find_outdated(local, remote);
    let n = pairs.len();
    let mut name_width: usize = 0;
    let mut version_width: usize = 0;
    let mut i: usize = 0;
    while i < n
        invariant
            i <= n,
            n == pairs@.len(),
            name_width == clipped(widest_id(pairs_view(pairs@), i as int)),
            version_width == widest_version(pairs_view(pairs@), i as int),
        decreases n - i,
    {
        let repo_len = pairs[i].remote.repo.as_str().unicode_len();
        let name_len = pairs[i].local.name.as_str().unicode_len();
        let version_len = pairs[i].local.version.as_str().unicode_len();
        let id: usize = if repo_len == usize::MAX || name_len > usize::MAX - 1 - repo_len {
            usize::MAX
        } else {
            repo_len + 1 + name_len
        };
        assert(id == clipped(id_width(pairs_view(pairs@)[i as int])));
        if id > name_width {
            name_width = id;
        }
        if version_len > version_width {
            version_width = version_len;
        }
        i += 1;
    }
    Report { pairs, count: n, name_width, version_width }
}

} // verus!
