use pacman_outdated::archive::{
    decode_database, get_remote_packages, is_desc_path, packages_from_members, Member,
};
use pacman_outdated::compare::compare_packages;
use pacman_outdated::config::get_local_repositories;
use pacman_outdated::error::Error;
use pacman_outdated::fetch::{
    database_url, get_remote_database, replace_all, substitute_url_vars, FetchStep,
};
use pacman_outdated::packages::{get_local_packages, PackageMap};
use std::io::Write;

fn tar_of(members: Vec<(&str, tar::EntryType, &[u8])>) -> Vec<u8> {
    let mut builder = tar::Builder::new(Vec::new());
    for (path, kind, content) in members {
        let mut header = tar::Header::new_gnu();
        header.set_entry_type(kind);
        header.set_size(content.len() as u64);
        header.set_mode(0o644);
        builder.append_data(&mut header, path, content).unwrap();
    }
    builder.into_inner().unwrap()
}

fn gzip_of(bytes: &[u8]) -> Vec<u8> {
    let mut encoder = flate2::write::GzEncoder::new(Vec::new(), flate2::Compression::default());
    encoder.write_all(bytes).unwrap();
    encoder.finish().unwrap()
}

#[test]
fn url_variables_are_filled_in() {
    let url = "http://mirror/$repo/os/$arch".to_string();
    assert_eq!(substitute_url_vars(&url, &"core".to_string(), "x86_64"), "http://mirror/core/os/x86_64");
    assert_eq!(
        substitute_url_vars(&"$repo/$repo-$arch$arch$".to_string(), &"r".to_string(), "a"),
        "r/r-aa$"
    );
    assert_eq!(substitute_url_vars(&"http://plain".to_string(), &"core".to_string(), "x"), "http://plain");
    assert_eq!(substitute_url_vars(&"$rep$repo".to_string(), &"$arch".to_string(), "A"), "$repA");
}

#[test]
fn replacing_goes_from_the_left() {
    assert_eq!(replace_all("aaa", "aa", "b"), "ba");
    assert_eq!(replace_all("abcabc", "bc", ""), "aa");
    assert_eq!(replace_all("abc", "", "x"), "abc");
    assert_eq!(replace_all("", "a", "x"), "");
    assert_eq!(replace_all("ab", "abc", "x"), "ab");
    assert_eq!(replace_all("xéyéz", "é", "ee"), "xeeyeez");
    for (s, p, w) in vec![("$repo$repo", "$repo", "core"), ("a$arch", "$arch", "$arch$arch"), ("ababab", "aba", "c")] {
        assert_eq!(replace_all(s, p, w), s.replace(p, w));
    }
}

#[test]
fn database_url_ends_in_the_repository_name() {
    let server = "http://mirror/$repo/os/$arch".to_string();
    assert_eq!(
        database_url(&server, &"extra".to_string(), "aarch64"),
        "http://mirror/extra/os/aarch64/extra.db"
    );
}

#[test]
fn servers_are_asked_in_order() {
    let repos = get_local_repositories("[core]\nServer = http://one/$repo\nServer = http://two/$arch\n", &Vec::new()).unwrap();
    match get_remote_database(&repos[0], "x86_64", 0) {
        FetchStep::Ask { server, url } => {
            assert_eq!(server, 0);
            assert_eq!(url, "http://one/core/core.db");
        }
        FetchStep::GiveUp(_) => panic!("the first server was not asked"),
    }
    match get_remote_database(&repos[0], "x86_64", 1) {
        FetchStep::Ask { server, url } => {
            assert_eq!(server, 1);
            assert_eq!(url, "http://two/x86_64/core.db");
        }
        FetchStep::GiveUp(_) => panic!("the second server was not asked"),
    }
    match get_remote_database(&repos[0], "x86_64", 2) {
        FetchStep::Ask { .. } => panic!("there is no third server"),
        FetchStep::GiveUp(e) => assert_eq!(e, Error::FetchFailed),
    }
}

#[test]
fn repository_without_servers_fails_at_once() {
    let repos = get_local_repositories("[core]\n", &Vec::new()).unwrap();
    assert!(matches!(get_remote_database(&repos[0], "x86_64", 0), FetchStep::GiveUp(Error::FetchFailed)));
}

#[test]
fn desc_paths() {
    assert!(is_desc_path(b"foo-1.0-1/desc"));
    assert!(is_desc_path(b"desc"));
    assert!(is_desc_path(b"/desc"));
    assert!(!is_desc_path(b"foo-1.0-1/mydesc"));
    assert!(!is_desc_path(b"foo-1.0-1/desc.bak"));
    assert!(!is_desc_path(b"foo-1.0-1/files"));
    assert!(!is_desc_path(b"des"));
    assert!(!is_desc_path(b""));
    assert!(!is_desc_path(b"xdesc"));
}

#[test]
fn database_gives_its_packages() {
    let tar = tar_of(vec![
        ("foo-2.0-1/", tar::EntryType::Directory, b""),
        ("foo-2.0-1/desc", tar::EntryType::Regular, b"%NAME%\nfoo\n\n%VERSION%\n2.0-1\n"),
        ("foo-2.0-1/files", tar::EntryType::Regular, b"%NAME%\nnot this\n"),
        ("bar-1-1/desc", tar::EntryType::Regular, b"%NAME%\nbar\n\n%VERSION%\n1-1\n"),
        ("baz-1-1/desc", tar::EntryType::Symlink, b""),
    ]);
    let packages = decode_database("core", &gzip_of(&tar)).unwrap();
    assert_eq!(packages.len(), 2);
    assert_eq!(packages[0].name, "foo");
    assert_eq!(packages[0].version, "2.0-1");
    assert_eq!(packages[0].repo, "core");
    assert_eq!(packages[1].name, "bar");
    assert_eq!(packages[1].version, "1-1");
    assert_eq!(packages[1].repo, "core");
}

#[test]
fn empty_archive_has_no_package() {
    let tar = tar_of(Vec::new());
    assert!(decode_database("core", &gzip_of(&tar)).unwrap().is_empty());
}

#[test]
fn broken_gzip_fails() {
    assert_eq!(decode_database("core", b"this is no gzip stream").unwrap_err(), Error::DecodeFailed);
    assert_eq!(decode_database("core", b"").unwrap_err(), Error::DecodeFailed);
    let tar = tar_of(vec![("a/desc", tar::EntryType::Regular, b"%NAME%\na\n")]);
    let mut cut = gzip_of(&tar);
    cut.truncate(cut.len() / 2);
    assert_eq!(decode_database("core", &cut).unwrap_err(), Error::DecodeFailed);
}

#[test]
fn broken_archive_fails() {
    let junk = vec![0x41u8; 2000];
    assert_eq!(decode_database("core", &gzip_of(&junk)).unwrap_err(), Error::DecodeFailed);
}

#[test]
fn description_that_is_no_text_fails() {
    let tar = tar_of(vec![
        ("a/desc", tar::EntryType::Regular, b"%NAME%\na\n"),
        ("b/desc", tar::EntryType::Regular, &[0x25, 0xff, 0xfe, 0x0a]),
    ]);
    assert_eq!(decode_database("core", &gzip_of(&tar)).unwrap_err(), Error::RecordMalformed);
}

#[test]
fn members_are_read_as_given() {
    let members = vec![
        Member { regular: true, path: b"x/desc".to_vec(), content: "%NAME%\nx\n%VERSION%\n1\n".as_bytes().to_vec() },
        Member { regular: false, path: b"y/desc".to_vec(), content: b"%NAME%\ny\n".to_vec() },
        Member { regular: true, path: b"z/other".to_vec(), content: vec![0xff] },
        Member { regular: true, path: b"desc".to_vec(), content: "%VERSION%\n9\n%NAME%\nü\n".as_bytes().to_vec() },
    ];
    let packages = packages_from_members("extra", &members).unwrap();
    assert_eq!(packages.len(), 2);
    assert_eq!(packages[0].name, "x");
    assert_eq!(packages[0].version, "1");
    assert_eq!(packages[0].repo, "extra");
    assert_eq!(packages[1].name, "ü");
    assert_eq!(packages[1].version, "9");
    let bad = vec![Member { regular: true, path: b"q/desc".to_vec(), content: vec![0xc3] }];
    assert_eq!(packages_from_members("extra", &bad).unwrap_err(), Error::RecordMalformed);
}

#[test]
fn failed_database_leaves_the_map() {
    let mut map = PackageMap::new();
    let good = gzip_of(&tar_of(vec![("a/desc", tar::EntryType::Regular, b"%NAME%\na\n%VERSION%\n1\n")]));
    assert!(get_remote_packages(&mut map, "core", &good).is_ok());
    assert_eq!(map.len(), 1);
    assert_eq!(get_remote_packages(&mut map, "extra", b"junk").unwrap_err(), Error::DecodeFailed);
    assert_eq!(map.len(), 1);
    assert_eq!(map.get("a").unwrap().repo, "core");
    let later = gzip_of(&tar_of(vec![("a/desc", tar::EntryType::Regular, b"%NAME%\na\n%VERSION%\n2\n")]));
    assert!(get_remote_packages(&mut map, "extra", &later).is_ok());
    assert_eq!(map.len(), 1);
    assert_eq!(map.get("a").unwrap().repo, "extra");
    assert_eq!(map.get("a").unwrap().version, "2");
}

#[test]
fn second_server_answers_after_the_first_failed() {
    let repos = get_local_repositories(
        "[core]\nServer = http://down/$repo/os/$arch\nServer = http://up/$repo/os/$arch\n",
        &Vec::new(),
    )
    .unwrap();
    assert_eq!(repos.len(), 1);
    let database = gzip_of(&tar_of(vec![(
        "foo-2.0/desc",
        tar::EntryType::Regular,
        b"%NAME%\nfoo\n\n%VERSION%\n2.0\n",
    )]));
    let mut asked: Vec<String> = Vec::new();
    let mut failed = 0;
    let body = loop {
        match get_remote_database(&repos[0], "x86_64", failed) {
            FetchStep::Ask { server, url } => {
                asked.push(url.clone());
                if url.starts_with("http://up/") {
                    break database.clone();
                }
                failed = server + 1;
            }
            FetchStep::GiveUp(e) => panic!("{}", e.message()),
        }
    };
    assert_eq!(asked, vec!["http://down/core/os/x86_64/core.db", "http://up/core/os/x86_64/core.db"]);
    let mut remote = PackageMap::new();
    get_remote_packages(&mut remote, &repos[0].name, &body).unwrap();
    let local = get_local_packages(&vec!["%NAME%\nfoo\n\n%VERSION%\n1.0\n".to_string()]);
    let report = compare_packages(&local, &remote);
    assert_eq!(report.count, 1);
    assert_eq!(report.pairs[0].local.name, "foo");
    assert_eq!(report.pairs[0].local.version, "1.0");
    assert_eq!(report.pairs[0].remote.repo, "core");
    assert_eq!(report.pairs[0].remote.name, "foo");
    assert_eq!(report.pairs[0].remote.version, "2.0");
    assert_eq!(report.name_width, 8);
    assert_eq!(report.version_width, 3);
}
