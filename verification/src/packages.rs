//! Package maps: the packages of one side, local or remote, found by name.

use crate::record::{read_package_desc, record_of, Package, PackageView};
use crate::text::{same_text, texts};
use vstd::prelude::*;
use vstd::string::*;

verus! {

/// Packages by name. Each name occurs once; the order of the entries is that
/// in which their names first came in.
#[derive(Debug)]
pub struct PackageMap {
    pub entries: Vec<Package>,
}

impl PackageMap {
    /// The name of the entry at position `i`.
    pub open spec fn name_at(&self, i: int) -> Seq<char> {
        self.entries@[i]@.name
    }

    /// Whether position `i` holds the package called `name`.
    pub open spec fn holds(&self, i: int, name: Seq<char>) -> bool {
        0 <= i < self.entries@.len() && self.name_at(i) == name
    }

    /// No name occurs twice.
    pub open spec fn wf(&self) -> bool {
        forall|i: int, j: int|
            0 <= i < j < self.entries@.len() ==> self.name_at(i) != self.name_at(j)
    }

    /// The map from each name to its package.
    pub open spec fn view(&self) -> Map<Seq<char>, PackageView> {
        Map::new(
            |name: Seq<char>| exists|i: int| self.holds(i, name),
            |name: Seq<char>| self.entries@[choose|i: int| self.holds(i, name)]@,
        )
    }

    /// The entry at a position is the package that the map has for its name.
    pub proof fn lemma_entry(&self, i: int)
        requires
            self.wf(),
            0 <= i < self.entries@.len(),
        ensures
            self@.dom().contains(self.name_at(i)),
            self@[self.name_at(i)] == self.entries@[i]@,
    {
        let name = self.name_at(i);
        assert(self.holds(i, name));
        let c = choose|c: int| self.holds(c, name);
        assert(c == i);
    }

    /// Every package of the map stands at some position, under its own name.
    pub proof fn lemma_member(&self, name: Seq<char>)
        requires
            self.wf(),
            self@.dom().contains(name),
        ensures
            exists|i: int| self.holds(i, name) && self@[name] == self.entries@[i]@,
            self@[name].name == name,
    {
        let i = choose|i: int| self.holds(i, name);
        assert(self.holds(i, name) && self@[name] == self.entries@[i]@);
    }

    /// The map without a package.
    pub fn new() -> (m: PackageMap)
        ensures
            m.wf(),
            m@ == Map::<Seq<char>, PackageView>::empty(),
    {
        let m = PackageMap { entries: Vec::new() };
        assert(m@ =~= Map::<Seq<char>, PackageView>::empty());
        m
    }

    /// Whether no name occurs twice among the entries.
    pub fn is_well_formed(&self) -> (r: bool)
        ensures
            r == self.wf(),
    {
        let n = self.entries.len();
        let mut j: usize = 0;
        while j < n
            invariant
                j <= n,
                n == self.entries@.len(),
                forall|a: int, b: int| 0 <= a < b < j ==> self.name_at(a) != self.name_at(b),
            decreases n - j,
        {
            let mut i: usize = 0;
            while i < j
                invariant
                    i <= j < n,
                    n == self.entries@.len(),
                    forall|a: int| 0 <= a < i ==> self.name_at(a) != self.name_at(j as int),
                decreases j - i,
            {
                if same_text(self.entries[i].name.as_str(), self.entries[j].name.as_str()) {
                    assert(self.name_at(i as int) == self.name_at(j as int));
                    return false;
                }
                i += 1;
            }
            j += 1;
        }
        true
    }

    /// The number of packages.
    pub fn len(&self) -> (n: usize)
        ensures
            n == self.entries@.len(),
    {
        self.entries.len()
    }

    /// The position of the package called `name`.
    pub fn position(&self, name: &str) -> (found: Option<usize>)
        requires
            self.wf(),
        ensures
            match found {
                Some(i) => self.holds(i as int, name@),
                None => !self@.dom().contains(name@),
            },
    {
        let n = self.entries.len();
        let mut i: usize = 0;
        while i < n
            invariant
                i <= n,
                n == self.entries@.len(),
                forall|k: int| 0 <= k < i ==> !self.holds(k, name@),
            decreases n - i,
        {
            if same_text(self.entries[i].name.as_str(), name) {
                return Some(i);
            }
            i += 1;
        }
        None
    }

    /// The package called `name`, if the map has one.
    pub fn get(&self, name: &str) -> (found: Option<&Package>)
        requires
            self.wf(),
        ensures
            match found {
                Some(p) => self@.dom().contains(name@) && p@ == self@[name@],
                None => !self@.dom().contains(name@),
            },
    {
        match self.position(name) {
            Some(i) => {
                proof {
                    self.lemma_entry(i as int);
                }
                Some(&self.entries[i])
            },
            None => None,
        }
    }

    /// Puts a package under its name, in place of the one that the map had
    /// under that name, if it had one.
    pub fn insert(&mut self, package: Package)
        requires
            old(self).wf(),
        ensures
            final(self).wf(),
            final(self)@ == old(self)@.insert(package@.name, package@),
    {
        let ghost before = *self;
        let ghost added = package@;
        let ghost at: int;
        match self.position(package.name.as_str()) {
            Some(i) => {
                self.entries.set(i, package);
                proof {
                    at = i as int;
                }
            },
            None => {
                self.entries.push(package);
                proof {
                    at = before.entries@.len() as int;
                    assert forall|j: int| 0 <= j < before.entries@.len() implies before.name_at(j)
                        != added.name by {
                        assert(!before.holds(j, added.name));
                    }
                }
            },
        }
        proof {
            assert(self.holds(at, added.name));
            assert forall|j: int| 0 <= j < self.entries@.len() && j != at implies self.entries@[j]
                == before.entries@[j] && before.holds(j, self.name_at(j)) && self.name_at(j)
                != added.name by {
                assert(before.name_at(j) == self.name_at(j));
            }
            assert forall|i: int, j: int| 0 <= i < j < self.entries@.len() implies self.name_at(i)
                != self.name_at(j) by {
                if i != at && j != at {
                    assert(before.name_at(i) != before.name_at(j));
                }
            }
            let goal = before@.insert(added.name, added);
            assert forall|name: Seq<char>| self@.dom().contains(name) == goal.dom().contains(
                name,
            ) by {
                if self@.dom().contains(name) && name != added.name {
                    let j = choose|j: int| self.holds(j, name);
                    assert(before.holds(j, name));
                }
                if before@.dom().contains(name) && name != added.name {
                    let j = choose|j: int| before.holds(j, name);
                    assert(self.holds(j, name));
                }
            }
            assert forall|name: Seq<char>| self@.dom().contains(name) implies self@[name]
                == goal[name] by {
                let j = choose|j: int| self.holds(j, name);
                self.lemma_entry(j);
                if j != at {
                    before.lemma_entry(j);
                }
            }
            assert(self@ =~= goal);
        }
    }

}

pub open spec fn packages_view(v: Seq<Package>) -> Seq<PackageView> {
    Seq::new(v.len(), |i: int| v[i]@)
}

/// The map after the first `upto` of these packages were put into it, each
/// in place of an earlier one of its name.
pub open spec fn merged(
    map: Map<Seq<char>, PackageView>,
    packages: Seq<PackageView>,
    upto: int,
) -> Map<Seq<char>, PackageView>
    decreases upto,
{
    if upto <= 0 {
        map
    } else {
        merged(map, packages, upto - 1).insert(packages[upto - 1].name, packages[upto - 1])
    }
}

/// Puts packages into a map in their order, so that of two with one name the
/// later one stays.
pub fn merge_packages(map: &mut PackageMap, packages: &Vec<Package>)
    requires
        old(map).wf(),
    ensures
        final(map).wf(),
        final(map)@ == merged(old(map)@, packages_view(packages@), packages@.len() as int),
{
    let n = packages.len();
    let mut i: usize = 0;
    while i < n
        invariant
            map.wf(),
            i <= n,
            n == packages@.len(),
            map@ == merged(old(map)@, packages_view(packages@), i as int),
        decreases n - i,
    {
        map.insert(packages[i].duplicate());
        i += 1;
    }
}

/// The records that description texts hold, one for each text.
pub open spec fn local_records(descs: Seq<Seq<char>>) -> Seq<PackageView> {
    Seq::new(descs.len(), |i: int| record_of(descs[i]))
}

/// The installed packages by name, from the description records that were
/// found for them. A record that cannot be read is left out; of two records
/// with one name the later one stays.
pub fn get_local_packages(descs: &Vec<String>) -> (map: PackageMap)
    ensures
        map.wf(),
        map@ == merged(
            Map::<Seq<char>, PackageView>::empty(),
            local_records(texts(descs@)),
            descs@.len() as int,
        ),
{
    let n = descs.len();
    let mut map = PackageMap::new();
    let mut i: usize = 0;
    while i < n
        invariant
            i <= n,
            n == descs@.len(),
            map.wf(),
            map@ == merged(
                Map::<Seq<char>, PackageView>::empty(),
                local_records(texts(descs@)),
                i as int,
            ),
        decreases n - i,
    {
        if let Ok(package) = read_package_desc(descs[i].clone()) {
            map.insert(package);
        }
        i += 1;
    }
    map
}

} // verus!
