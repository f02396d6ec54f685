use pacman_outdated::config::{
    get_local_repositories, include_targets, read_mirror_list, MirrorFile,
};
use pacman_outdated::error::Error;

fn mirror_file(path: &str, content: &str) -> MirrorFile {
    MirrorFile { path: path.to_string(), content: content.to_string() }
}

#[test]
fn sections_become_repositories_in_order() {
    let text = "[core]\nServer = http://a/$repo\n[extra]\nServer = http://b/$repo\nServer = http://c/$repo\n[multilib]\n";
    let repos = get_local_repositories(text, &Vec::new()).unwrap();
    assert_eq!(repos.len(), 3);
    assert_eq!(repos[0].name, "core");
    assert_eq!(repos[0].servers, vec!["http://a/$repo"]);
    assert_eq!(repos[1].name, "extra");
    assert_eq!(repos[1].servers, vec!["http://b/$repo", "http://c/$repo"]);
    assert_eq!(repos[2].name, "multilib");
    assert!(repos[2].servers.is_empty());
}

#[test]
fn last_section_is_closed_once() {
    let repos = get_local_repositories("[core]\nServer = http://a", &Vec::new()).unwrap();
    assert_eq!(repos.len(), 1);
    assert_eq!(repos[0].name, "core");
    assert_eq!(repos[0].servers, vec!["http://a"]);
    let repos = get_local_repositories("[core]", &Vec::new()).unwrap();
    assert_eq!(repos.len(), 1);
    assert!(repos[0].servers.is_empty());
}

#[test]
fn empty_configuration_has_no_repository() {
    assert!(get_local_repositories("", &Vec::new()).unwrap().is_empty());
    assert!(get_local_repositories("# nothing\nServer = http://a\n", &Vec::new()).unwrap().is_empty());
}

#[test]
fn options_section_is_no_repository() {
    let text = "[options]\nServer = http://ignored\nInclude = /nowhere\nArchitecture = auto\n[core]\nServer = http://a\n";
    let repos = get_local_repositories(text, &Vec::new()).unwrap();
    assert_eq!(repos.len(), 1);
    assert_eq!(repos[0].name, "core");
    assert_eq!(repos[0].servers, vec!["http://a"]);
}

#[test]
fn options_content_stays_out_of_neighbours() {
    let text = "[core]\nServer = http://a\n[options]\nServer = http://ignored\n[extra]\nServer = http://b\n";
    let repos = get_local_repositories(text, &Vec::new()).unwrap();
    assert_eq!(repos.len(), 2);
    assert_eq!(repos[0].name, "core");
    assert_eq!(repos[0].servers, vec!["http://a"]);
    assert_eq!(repos[1].name, "extra");
    assert_eq!(repos[1].servers, vec!["http://b"]);
}

#[test]
fn include_appends_the_servers_of_the_mirror_list() {
    let list = "# a comment\nServer = http://m1/$repo/os/$arch\nServer = http://m2/$repo/os/$arch\n";
    let files = vec![mirror_file("/etc/pacman.d/mirrorlist", list)];
    let text = "[core]\nServer = http://first\nInclude = /etc/pacman.d/mirrorlist\nServer = http://last\n";
    let repos = get_local_repositories(text, &files).unwrap();
    assert_eq!(repos.len(), 1);
    assert_eq!(
        repos[0].servers,
        vec!["http://first", "http://m1/$repo/os/$arch", "http://m2/$repo/os/$arch", "http://last"]
    );
}

#[test]
fn include_is_not_followed_further() {
    let files = vec![
        mirror_file("/a", "Include = /b\nServer = http://a\n"),
        mirror_file("/b", "Server = http://b\n"),
    ];
    let repos = get_local_repositories("[core]\nInclude = /a\n", &files).unwrap();
    assert_eq!(repos[0].servers, vec!["http://a"]);
}

#[test]
fn missing_mirror_list_fails() {
    let files = vec![mirror_file("/other", "Server = http://x\n")];
    let r = get_local_repositories("[core]\nInclude = /etc/pacman.d/mirrorlist\n", &files);
    assert_eq!(r.unwrap_err(), Error::ConfigMissing);
    assert_eq!(Error::ConfigMissing.message(), "mirrorlist does not exist");
}

#[test]
fn first_file_of_a_path_is_read() {
    let files = vec![mirror_file("/a", "Server = http://one\n"), mirror_file("/a", "Server = http://two\n")];
    let repos = get_local_repositories("[core]\nInclude = /a\n", &files).unwrap();
    assert_eq!(repos[0].servers, vec!["http://one"]);
}

#[test]
fn unclosed_header_fails() {
    let r = get_local_repositories("[core]\nServer = http://a\n[extra\n", &Vec::new());
    assert_eq!(r.unwrap_err(), Error::ConfigMalformed);
}

#[test]
fn header_name_ends_at_first_bracket() {
    let repos = get_local_repositories("[core] # main\n[a]b]\n", &Vec::new()).unwrap();
    assert_eq!(repos[0].name, "core");
    assert_eq!(repos[1].name, "a");
}

#[test]
fn indented_lines_count_for_nothing() {
    let repos = get_local_repositories("[core]\n Server = http://a\n#Server = http://b\n", &Vec::new()).unwrap();
    assert!(repos[0].servers.is_empty());
}

#[test]
fn mirror_list_keeps_server_lines_only() {
    let list = "## Arch Linux mirrors\n#Server = http://off\nServer = http://one/$repo\n\nServer = http://two/$repo\r\nInclude = /x\n";
    assert_eq!(read_mirror_list(list), vec!["http://one/$repo", "http://two/$repo"]);
    assert!(read_mirror_list("").is_empty());
}

#[test]
fn include_targets_are_listed_in_order() {
    let text = "[options]\nInclude = /o\n[core]\nInclude = /etc/pacman.d/mirrorlist\n[extra]\nServer = http://x\nInclude   /second\n";
    assert_eq!(include_targets(text), vec!["/o", "/etc/pacman.d/mirrorlist", "/second"]);
}

#[test]
fn error_messages() {
    assert_eq!(Error::FetchFailed.message(), "unable to fetch database from any servers");
    assert_eq!(Error::ConfigMalformed.message(), "section header is not closed");
    assert_eq!(Error::DecodeFailed.message(), "unable to decode database");
    assert_eq!(Error::RecordMalformed.message(), "unable to read package description");
}
