use pacman_outdated::compare::{
    compare_package_versions, compare_packages, find_outdated, pair_less, text_less, OutdatedPair,
    PackageComparison,
};
use pacman_outdated::packages::{get_local_packages, merge_packages, PackageMap};
use pacman_outdated::record::{read_package_desc, Package};

fn pkg(name: &str, version: &str, repo: &str) -> Package {
    Package::new(name.to_string(), version.to_string(), repo.to_string())
}

fn map_of(packages: Vec<Package>) -> PackageMap {
    let mut map = PackageMap::new();
    for p in packages {
        map.insert(p);
    }
    map
}

fn summary(pairs: &Vec<OutdatedPair>) -> Vec<String> {
    pairs
        .iter()
        .map(|p| format!("{}/{} {} -> {}", p.remote.repo, p.remote.name, p.local.version, p.remote.version))
        .collect()
}

#[test]
fn versions_compare_by_their_characters() {
    let a = pkg("foo", "1.0", "none");
    assert_eq!(compare_package_versions(&a, &pkg("foo", "1.0", "core")), PackageComparison::Same);
    assert_eq!(compare_package_versions(&a, &pkg("foo", "1.00", "core")), PackageComparison::Different);
    assert_eq!(compare_package_versions(&a, &pkg("foo", "0.9", "core")), PackageComparison::Different);
}

#[test]
fn same_version_is_not_outdated() {
    let local = map_of(vec![pkg("bar", "3.1", "none")]);
    let remote = map_of(vec![pkg("bar", "3.1", "extra")]);
    let report = compare_packages(&local, &remote);
    assert!(report.pairs.is_empty());
    assert_eq!(report.count, 0);
    assert_eq!(report.name_width, 0);
    assert_eq!(report.version_width, 0);
}

#[test]
fn records_with_other_versions_make_one_pair() {
    let local = get_local_packages(&vec!["%NAME%\nfoo\n\n%VERSION%\n1.0\n".to_string()]);
    let mut remote = PackageMap::new();
    let mut theirs = read_package_desc("%NAME%\nfoo\n\n%VERSION%\n2.0\n".to_string()).unwrap();
    theirs.repo = "core".to_string();
    remote.insert(theirs);
    let pairs = find_outdated(&local, &remote);
    assert_eq!(pairs.len(), 1);
    assert_eq!(pairs[0].local.name, "foo");
    assert_eq!(pairs[0].local.version, "1.0");
    assert_eq!(pairs[0].local.repo, "none");
    assert_eq!(pairs[0].remote.name, "foo");
    assert_eq!(pairs[0].remote.version, "2.0");
    assert_eq!(pairs[0].remote.repo, "core");
}

#[test]
fn only_packages_of_both_sides_with_other_versions_are_listed() {
    let local = map_of(vec![
        pkg("zsh", "5.8", "none"),
        pkg("bash", "5.1", "none"),
        pkg("vim", "9.0", "none"),
        pkg("mine", "0.1", "none"),
        pkg("gcc", "12", "none"),
    ]);
    let remote = map_of(vec![
        pkg("gcc", "13", "core"),
        pkg("bash", "5.2", "core"),
        pkg("vim", "9.0", "extra"),
        pkg("zsh", "5.9", "extra"),
        pkg("other", "1", "extra"),
    ]);
    let report = compare_packages(&local, &remote);
    assert_eq!(
        summary(&report.pairs),
        vec!["core/bash 5.1 -> 5.2", "core/gcc 12 -> 13", "extra/zsh 5.8 -> 5.9"]
    );
    assert_eq!(report.count, 3);
    assert_eq!(report.name_width, 9);
    assert_eq!(report.version_width, 3);
}

#[test]
fn repository_orders_before_name() {
    let local = map_of(vec![pkg("a", "1", "none"), pkg("b", "1", "none"), pkg("c", "1", "none")]);
    let remote = map_of(vec![pkg("a", "2", "zz"), pkg("b", "2", "aa"), pkg("c", "2", "aa")]);
    let pairs = find_outdated(&local, &remote);
    assert_eq!(summary(&pairs), vec!["aa/b 1 -> 2", "aa/c 1 -> 2", "zz/a 1 -> 2"]);
}

#[test]
fn comparing_again_gives_the_same_list() {
    let local = map_of(vec![pkg("x", "1", "none"), pkg("y", "1", "none"), pkg("w", "3", "none")]);
    let remote = map_of(vec![pkg("y", "2", "r"), pkg("x", "2", "r"), pkg("w", "3", "r")]);
    let first = find_outdated(&local, &remote);
    let second = find_outdated(&local, &remote);
    assert_eq!(summary(&first), summary(&second));
    assert_eq!(summary(&first), vec!["r/x 1 -> 2", "r/y 1 -> 2"]);
    let turned = map_of(vec![pkg("w", "3", "none"), pkg("y", "1", "none"), pkg("x", "1", "none")]);
    assert_eq!(summary(&find_outdated(&turned, &remote)), summary(&first));
}

#[test]
fn empty_maps_give_an_empty_report() {
    let report = compare_packages(&PackageMap::new(), &PackageMap::new());
    assert!(report.pairs.is_empty());
    assert_eq!(report.count, 0);
}

#[test]
fn text_order_is_lexicographic() {
    assert!(text_less("a", "b"));
    assert!(!text_less("b", "a"));
    assert!(!text_less("a", "a"));
    assert!(text_less("", "a"));
    assert!(!text_less("a", ""));
    assert!(!text_less("", ""));
    assert!(text_less("ab", "abc"));
    assert!(text_less("Z", "a"));
    assert!(text_less("abc", "abd"));
    assert!(text_less("z", "é"));
    for (a, b) in vec![("core", "extra"), ("lib32-x", "lib32"), ("é", "e\u{10000}"), ("\u{ffff}", "\u{10000}")] {
        assert_eq!(text_less(a, b), a < b);
        assert_eq!(text_less(b, a), b < a);
    }
}

#[test]
fn pairs_order_by_remote_repository_then_name() {
    let x = OutdatedPair { local: pkg("b", "1", "none"), remote: pkg("b", "2", "core") };
    let y = OutdatedPair { local: pkg("a", "1", "none"), remote: pkg("a", "2", "extra") };
    let z = OutdatedPair { local: pkg("c", "1", "none"), remote: pkg("c", "2", "core") };
    assert!(pair_less(&x, &y));
    assert!(!pair_less(&y, &x));
    assert!(pair_less(&x, &z));
    assert!(!pair_less(&z, &x));
    assert!(!pair_less(&x, &x));
}

#[test]
fn later_package_of_a_name_stays() {
    let mut map = PackageMap::new();
    map.insert(pkg("foo", "1", "core"));
    map.insert(pkg("bar", "1", "core"));
    map.insert(pkg("foo", "2", "extra"));
    assert_eq!(map.len(), 2);
    let foo = map.get("foo").unwrap();
    assert_eq!(foo.version, "2");
    assert_eq!(foo.repo, "extra");
    assert_eq!(map.get("bar").unwrap().version, "1");
    assert!(map.get("baz").is_none());
    assert_eq!(map.position("bar"), Some(1));
    assert_eq!(map.position("nope"), None);
    merge_packages(&mut map, &vec![pkg("bar", "3", "x"), pkg("new", "1", "x"), pkg("bar", "4", "y")]);
    assert_eq!(map.len(), 3);
    assert_eq!(map.get("bar").unwrap().version, "4");
    assert_eq!(map.get("new").unwrap().repo, "x");
}

#[test]
fn local_inventory_reads_every_record() {
    let descs = vec![
        "%NAME%\nfoo\n%VERSION%\n1.0\n".to_string(),
        "%NAME%\nbar\n%VERSION%\n2.0\n".to_string(),
        "%NAME%\nfoo\n%VERSION%\n1.1\n".to_string(),
    ];
    let map = get_local_packages(&descs);
    assert_eq!(map.len(), 2);
    assert_eq!(map.get("foo").unwrap().version, "1.1");
    assert_eq!(map.get("foo").unwrap().repo, "none");
    assert_eq!(map.get("bar").unwrap().version, "2.0");
}

#[test]
fn a_name_twice_is_not_well_formed() {
    let good = map_of(vec![pkg("a", "1", "x"), pkg("b", "1", "x"), pkg("a", "2", "y")]);
    assert!(good.is_well_formed());
    assert!(PackageMap::new().is_well_formed());
    let bad = PackageMap { entries: vec![pkg("a", "1", "x"), pkg("b", "1", "x"), pkg("a", "2", "y")] };
    assert!(!bad.is_well_formed());
}

#[test]
fn widths_count_characters() {
    let local = map_of(vec![pkg("größe", "1.0.0-é", "none"), pkg("ab", "1", "none")]);
    let remote = map_of(vec![pkg("größe", "2", "core"), pkg("ab", "2", "community")]);
    let report = compare_packages(&local, &remote);
    assert_eq!(report.count, 2);
    assert_eq!(summary(&report.pairs), vec!["community/ab 1 -> 2", "core/größe 1.0.0-é -> 2"]);
    assert_eq!(report.name_width, 12);
    assert_eq!(report.version_width, 7);
}
