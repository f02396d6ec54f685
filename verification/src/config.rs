//! The repository configuration: sections that name repositories, `Server`
//! lines that give their mirrors, and `Include` lines that name mirror lists.

use crate::error::Error;
use crate::text::{
    append_all, last_token, last_token_of, lines_of, same_text, span_len, split_lines,
    starts_with, texts,
};
use vstd::prelude::*;
use vstd::string::*;

verus! {

/// A repository and its servers, in the order in which they are to be asked.
#[derive(Debug)]
pub struct Repository {
    pub name: String,
    pub servers: Vec<String>,
}

pub struct RepositoryView {
    pub name: Seq<char>,
    pub servers: Seq<Seq<char>>,
}

impl View for Repository {
    type V = RepositoryView;

    open spec fn view(&self) -> RepositoryView {
        RepositoryView { name: self.name@, servers: texts(self.servers@) }
    }
}

/// A mirror list that a configuration may name, as it was read.
#[derive(Debug)]
pub struct MirrorFile {
    pub path: String,
    pub content: String,
}

pub struct MirrorFileView {
    pub path: Seq<char>,
    pub content: Seq<char>,
}

impl View for MirrorFile {
    type V = MirrorFileView;

    open spec fn view(&self) -> MirrorFileView {
        MirrorFileView { path: self.path@, content: self.content@ }
    }
}

pub open spec fn repositories_view(v: Seq<Repository>) -> Seq<RepositoryView> {
    Seq::new(v.len(), |i: int| v[i]@)
}

pub open spec fn open_view(open: Option<Repository>) -> Option<RepositoryView> {
    match open {
        Some(r) => Some(r@),
        None => None,
    }
}

pub open spec fn files_view(v: Seq<MirrorFile>) -> Seq<MirrorFileView> {
    Seq::new(v.len(), |i: int| v[i]@)
}

/// What a line of the configuration says.
pub enum LineKind {
    /// The header of a repository's section.
    Section(Seq<char>),
    /// The header of the section of options.
    Options,
    /// A header without a closing bracket.
    Broken,
    /// A server of the current section.
    Server(Seq<char>),
    /// A mirror list whose servers belong to the current section.
    Include(Seq<char>),
    Other,
}

/// The position of the first closing bracket after the first character of
/// `line`, or the length of `line` where there is none.
pub open spec fn closing(line: Seq<char>) -> int {
    (1 + span_len(line, 1, ']')) as int
}

pub open spec fn kind_of(line: Seq<char>) -> LineKind {
    if line.len() > 0 && line[0] == '[' {
        let close = closing(line);
        if close >= line.len() {
            LineKind::Broken
        } else if line.subrange(1, close) == "options"@ {
            LineKind::Options
        } else {
            LineKind::Section(line.subrange(1, close))
        }
    } else if "Server"@.is_prefix_of(line) {
        LineKind::Server(last_token(line))
    } else if "Include"@.is_prefix_of(line) {
        LineKind::Include(last_token(line))
    } else {
        LineKind::Other
    }
}

/// The servers that the first `upto` lines of a mirror list give: the last
/// token of each line that begins with `Server`.
pub open spec fn servers_among(lines: Seq<Seq<char>>, upto: int) -> Seq<Seq<char>>
    decreases upto,
{
    if upto <= 0 {
        Seq::empty()
    } else if "Server"@.is_prefix_of(lines[upto - 1]) {
        servers_among(lines, upto - 1).push(last_token(lines[upto - 1]))
    } else {
        servers_among(lines, upto - 1)
    }
}

/// The servers of a mirror list.
pub open spec fn mirror_servers(content: Seq<char>) -> Seq<Seq<char>> {
    servers_among(lines_of(content), lines_of(content).len() as int)
}

/// The content of the first of the first `upto` files that has this path.
pub open spec fn file_among(files: Seq<MirrorFileView>, path: Seq<char>, upto: int) -> Option<
    Seq<char>,
>
    decreases upto,
{
    if upto <= 0 {
        None
    } else {
        match file_among(files, path, upto - 1) {
            Some(content) => Some(content),
            None => if files[upto - 1].path == path {
                Some(files[upto - 1].content)
            } else {
                None
            },
        }
    }
}

/// The content of the file at `path`, where the files hold it.
pub open spec fn file_at(files: Seq<MirrorFileView>, path: Seq<char>) -> Option<Seq<char>> {
    file_among(files, path, files.len() as int)
}

/// Where a scan of the configuration stands: the repositories whose sections
/// have ended, and the one whose section is open, if one is.
pub struct Scan {
    pub done: Seq<RepositoryView>,
    pub open: Option<RepositoryView>,
}

/// The repositories of a scan, the open one last.
pub open spec fn closed(scan: Scan) -> Seq<RepositoryView> {
    match scan.open {
        Some(repository) => scan.done.push(repository),
        None => scan.done,
    }
}

/// The scan after one more line.
pub open spec fn after_line(scan: Scan, line: Seq<char>, files: Seq<MirrorFileView>) -> Result<
    Scan,
    Error,
> {
    match kind_of(line) {
        LineKind::Section(name) => Ok(
            Scan {
                done: closed(scan),
                open: Some(RepositoryView { name, servers: Seq::empty() }),
            },
        ),
        LineKind::Options => Ok(Scan { done: closed(scan), open: None }),
        LineKind::Broken => Err(Error::ConfigMalformed),
        LineKind::Server(url) => match scan.open {
            Some(r) => Ok(
                Scan {
                    done: scan.done,
                    open: Some(RepositoryView { name: r.name, servers: r.servers.push(url) }),
                },
            ),
            None => Ok(scan),
        },
        LineKind::Include(path) => match scan.open {
            Some(r) => match file_at(files, path) {
                Some(content) => Ok(
                    Scan {
                        done: scan.done,
                        open: Some(
                            RepositoryView {
                                name: r.name,
                                servers: r.servers + mirror_servers(content),
                            },
                        ),
                    },
                ),
                None => Err(Error::ConfigMissing),
            },
            None => Ok(scan),
        },
        LineKind::Other => Ok(scan),
    }
}

/// The scan after the first `upto` lines, or the first error among them.
pub open spec fn scan_of(lines: Seq<Seq<char>>, files: Seq<MirrorFileView>, upto: int) -> Result<
    Scan,
    Error,
>
    decreases upto,
{
    if upto <= 0 {
        Ok(Scan { done: Seq::empty(), open: None })
    } else {
        match scan_of(lines, files, upto - 1) {
            Ok(scan) => after_line(scan, lines[upto - 1], files),
            Err(e) => Err(e),
        }
    }
}

/// The repositories that a configuration declares, in the order of their
/// sections, given the mirror lists that were read for it.
pub open spec fn repositories_of(text: Seq<char>, files: Seq<MirrorFileView>) -> Result<
    Seq<RepositoryView>,
    Error,
> {
    let lines = lines_of(text);
    match scan_of(lines, files, lines.len() as int) {
        Ok(scan) => Ok(closed(scan)),
        Err(e) => Err(e),
    }
}

/// The servers that a mirror list names, in its order.
pub fn read_mirror_list(content: &str) -> (servers: Vec<String>)
    ensures
        texts(servers@) == mirror_servers(content@),
{
    let lines = split_lines(content);
    let n = lines.len();
    let mut servers: Vec<String> = Vec::new();
    let mut i: usize = 0;
    assert(texts(servers@) =~= Seq::empty());
    while i < n
        invariant
            i <= n,
            n == lines@.len(),
            texts(lines@) == lines_of(content@),
            texts(servers@) == servers_among(texts(lines@), i as int),
        decreases n - i,
    {
        if starts_with(lines[i].as_str(), "Server") {
            let url = last_token_of(lines[i].as_str());
            assert(texts(servers@.push(url)) =~= texts(servers@).push(url@));
            servers.push(url);
        }
        i += 1;
    }
    servers
}

/// The position of the first file with this path.
fn find_file(files: &Vec<MirrorFile>, path: &str) -> (found: Option<usize>)
    ensures
        match found {
            Some(i) => i < files@.len() && file_at(files_view(files@), path@) == Some(
                files@[i as int].content@,
            ),
            None => file_at(files_view(files@), path@) is None,
        },
{
    let n = files.len();
    let mut i: usize = 0;
    while i < n
        invariant
            i <= n,
            n == files@.len(),
            file_among(files_view(files@), path@, i as int) is None,
        decreases n - i,
    {
        if same_text(files[i].path.as_str(), path) {
            proof {
                lemma_file_found(files_view(files@), path@, i as int, n as int);
            }
            return Some(i);
        }
        i += 1;
    }
    None
}

proof fn lemma_file_found(files: Seq<MirrorFileView>, path: Seq<char>, at: int, upto: int)
    requires
        0 <= at < upto <= files.len(),
        file_among(files, path, at) is None,
        files[at].path == path,
    ensures
        file_among(files, path, upto) == Some(files[at].content),
    decreases upto,
{
    if upto > at + 1 {
        lemma_file_found(files, path, at, upto - 1);
    }
}

/// The name between the bracket that opens a header and the first bracket
/// that closes it, if one does.
fn section_name(line: &str) -> (name: Option<String>)
    requires
        line@.len() > 0,
        line@[0] == '[',
    ensures
        match name {
            Some(n) => closing(line@) < line@.len() && n@ == line@.subrange(1, closing(line@)),
            None => closing(line@) >= line@.len(),
        },
{
    let n = line.unicode_len();
    let mut close: usize = 1;
    while close < n && line.get_char(close) != ']'
        invariant
            n == line@.len(),
            1 <= close <= n,
            close + span_len(line@, close as int, ']') == closing(line@),
        decreases n - close,
    {
        close += 1;
    }
    if close < n {
        Some(line.substring_char(1, close).to_owned())
    } else {
        None
    }
}

/// The last token of each of the first `upto` lines that begins with
/// `Include`.
pub open spec fn includes_among(lines: Seq<Seq<char>>, upto: int) -> Seq<Seq<char>>
    decreases upto,
{
    if upto <= 0 {
        Seq::empty()
    } else if "Include"@.is_prefix_of(lines[upto - 1]) {
        includes_among(lines, upto - 1).push(last_token(lines[upto - 1]))
    } else {
        includes_among(lines, upto - 1)
    }
}

/// The paths of the mirror lists that the configuration names in `Include`
/// lines, in its order: the files to read before the repositories can be.
pub fn include_targets(text: &str) -> (paths: Vec<String>)
    ensures
        texts(paths@) == includes_among(lines_of(text@), lines_of(text@).len() as int),
{
    let lines = split_lines(text);
    let n = lines.len();
    let mut paths: Vec<String> = Vec::new();
    let mut i: usize = 0;
    assert(texts(paths@) =~= Seq::empty());
    while i < n
        invariant
            i <= n,
            n == lines@.len(),
            texts(lines@) == lines_of(text@),
            texts(paths@) == includes_among(texts(lines@), i as int),
        decreases n - i,
    {
        if starts_with(lines[i].as_str(), "Include") {
            let path = last_token_of(lines[i].as_str());
            assert(texts(paths@.push(path)) =~= texts(paths@).push(path@));
            paths.push(path);
        }
        i += 1;
    }
    paths
}

/// A scan that has failed stays failed, with the same error.
pub proof fn lemma_error_stays(
    lines: Seq<Seq<char>>,
    files: Seq<MirrorFileView>,
    at: int,
    upto: int,
)
    requires
        at <= upto,
        scan_of(lines, files, at) is Err,
    ensures
        scan_of(lines, files, upto) == scan_of(lines, files, at),
    decreases upto,
{
    if at < upto {
        lemma_error_stays(lines, files, at, upto - 1);
    }
}

/// Reads the repositories that a configuration declares. `files` holds the
/// mirror lists that could be read; an `Include` line of a repository's
/// section that names another path fails with `ConfigMissing`, and a header
/// without a closing bracket with `ConfigMalformed`.
pub fn get_local_repositories(text: &str, files: &Vec<MirrorFile>) -> (r: Result<
    Vec<Repository>,
    Error,
>)
    ensures
        match r {
            Ok(repositories) => repositories_of(text@, files_view(files@)) == Ok::<
                Seq<RepositoryView>,
                Error,
            >(repositories_view(repositories@)),
            Err(e) => repositories_of(text@, files_view(files@)) == Err::<
                Seq<RepositoryView>,
                Error,
            >(e),
        },
{
    let lines = split_lines(text);
    let n = lines.len();
    let mut done: Vec<Repository> = Vec::new();
    let mut open: Option<Repository> = None;
    let mut i: usize = 0;
    assert(repositories_view(done@) =~= Seq::empty());
    while i < n
        invariant
            i <= n,
            n == lines@.len(),
            texts(lines@) == lines_of(text@),
            scan_of(texts(lines@), files_view(files@), i as int) == Ok::<Scan, Error>(
                Scan {
                    done: repositories_view(done@),
                    open: open_view(open),
                },
            ),
        decreases n - i,
    {
        let line = lines[i].as_str();
        let ghost before = Scan {
            done: repositories_view(done@),
            open: open_view(open),
        };
        proof {
            reveal_strlit("Server");
            reveal_strlit("Include");
        }
        if line.unicode_len() > 0 && line.get_char(0) == '[' {
            match section_name(line) {
                None => {
                    proof {
                        lemma_error_stays(texts(lines@), files_view(files@), i + 1, n as int);
                    }
                    return Err(Error::ConfigMalformed);
                },
                Some(name) => {
                    if let Some(r) = open {
                        assert(repositories_view(done@.push(r)) =~= repositories_view(done@).push(
                            r@,
                        ));
                        done.push(r);
                    }
                    assert(repositories_view(done@) == closed(before));
                    if same_text(name.as_str(), "options") {
                        open = None;
                    } else {
                        let fresh = Repository { name, servers: Vec::new() };
                        assert(fresh@.servers =~= Seq::empty());
                        open = Some(fresh);
                    }
                },
            }
        } else if starts_with(line, "Server") {
            if let Some(r) = open {
                let url = last_token_of(line);
                let mut servers = r.servers;
                assert(texts(servers@.push(url)) =~= texts(servers@).push(url@));
                servers.push(url);
                open = Some(Repository { name: r.name, servers });
            }
        } else if starts_with(line, "Include") {
            if let Some(r) = open {
                let path = last_token_of(line);
                match find_file(files, path.as_str()) {
                    None => {
                        proof {
                            lemma_error_stays(texts(lines@), files_view(files@), i + 1, n as int);
                        }
                        return Err(Error::ConfigMissing);
                    },
                    Some(at) => {
                        let listed = read_mirror_list(files[at].content.as_str());
                        let mut servers = r.servers;
                        append_all(&mut servers, listed);
                        open = Some(Repository { name: r.name, servers });
                    },
                }
            }
        }
        i += 1;
    }
    if let Some(r) = open {
        assert(repositories_view(done@.push(r)) =~= repositories_view(done@).push(r@));
        done.push(r);
    }
    Ok(done)
}

/// Whether a line is the header of a section.
pub open spec fn is_header(line: Seq<char>) -> bool {
    line.len() > 0 && line[0] == '['
}

/// The names of the repositories whose headers are among the first `upto`
/// lines, in their order. The section of options is none of them.
pub open spec fn sections_among(lines: Seq<Seq<char>>, upto: int) -> Seq<Seq<char>>
    decreases upto,
{
    if upto <= 0 {
        Seq::empty()
    } else {
        match kind_of(lines[upto - 1]) {
            LineKind::Section(name) => sections_among(lines, upto - 1).push(name),
            _ => sections_among(lines, upto - 1),
        }
    }
}

/// The servers that one line gives to the section in which it stands.
pub open spec fn servers_of_line(line: Seq<char>, files: Seq<MirrorFileView>) -> Seq<Seq<char>> {
    match kind_of(line) {
        LineKind::Server(url) => seq![url],
        LineKind::Include(path) => match file_at(files, path) {
            Some(content) => mirror_servers(content),
            None => Seq::empty(),
        },
        _ => Seq::empty(),
    }
}

/// The servers that the lines `from..to` give, in their order.
pub open spec fn servers_between(
    lines: Seq<Seq<char>>,
    files: Seq<MirrorFileView>,
    from: int,
    to: int,
) -> Seq<Seq<char>>
    decreases to - from,
{
    if to <= from {
        Seq::empty()
    } else {
        servers_between(lines, files, from, to - 1) + servers_of_line(lines[to - 1], files)
    }
}

pub open spec fn names_of(repositories: Seq<RepositoryView>) -> Seq<Seq<char>> {
    Seq::new(repositories.len(), |i: int| repositories[i].name)
}

/// The repositories of a scan are those whose headers it has passed.
pub proof fn lemma_scan_names(lines: Seq<Seq<char>>, files: Seq<MirrorFileView>, upto: int)
    requires
        upto <= lines.len(),
        scan_of(lines, files, upto) is Ok,
    ensures
        names_of(closed(scan_of(lines, files, upto)->Ok_0)) == sections_among(lines, upto),
    decreases upto,
{
    if upto <= 0 {
        assert(names_of(closed(scan_of(lines, files, upto)->Ok_0)) =~= Seq::empty());
    } else {
        lemma_scan_names(lines, files, upto - 1);
        let before = scan_of(lines, files, upto - 1)->Ok_0;
        let after = scan_of(lines, files, upto)->Ok_0;
        match kind_of(lines[upto - 1]) {
            LineKind::Section(name) => {
                assert(names_of(closed(after)) =~= names_of(closed(before)).push(name));
            },
            _ => {
                assert(names_of(closed(after)) =~= names_of(closed(before)));
            },
        }
    }
}

/// The repositories whose sections have ended stay as they are.
pub proof fn lemma_done_stays(
    lines: Seq<Seq<char>>,
    files: Seq<MirrorFileView>,
    at: int,
    upto: int,
)
    requires
        0 <= at <= upto,
        scan_of(lines, files, upto) is Ok,
    ensures
        scan_of(lines, files, at) is Ok,
        scan_of(lines, files, at)->Ok_0.done.len() <= scan_of(lines, files, upto)->Ok_0.done.len(),
        forall|k: int|
            0 <= k < scan_of(lines, files, at)->Ok_0.done.len() ==> scan_of(
                lines,
                files,
                upto,
            )->Ok_0.done[k] == scan_of(lines, files, at)->Ok_0.done[k],
    decreases upto,
{
    if at < upto {
        lemma_done_stays(lines, files, at, upto - 1);
    }
}

/// While no header follows the header of a repository's section, the section
/// is open, and its servers are those that the lines after the header gave.
pub proof fn lemma_open_section(
    lines: Seq<Seq<char>>,
    files: Seq<MirrorFileView>,
    header: int,
    upto: int,
)
    requires
        0 <= header < upto <= lines.len(),
        scan_of(lines, files, upto) is Ok,
        kind_of(lines[header]) is Section,
        forall|j: int| header < j < upto ==> !is_header(#[trigger] lines[j]),
    ensures
        scan_of(lines, files, header) is Ok,
        scan_of(lines, files, upto) == Ok::<Scan, Error>(
            Scan {
                done: closed(scan_of(lines, files, header)->Ok_0),
                open: Some(
                    RepositoryView {
                        name: kind_of(lines[header])->Section_0,
                        servers: servers_between(lines, files, header + 1, upto),
                    },
                ),
            },
        ),
    decreases upto,
{
    if upto == header + 1 {
        assert(servers_between(lines, files, header + 1, upto) =~= Seq::empty());
    } else {
        lemma_open_section(lines, files, header, upto - 1);
        let line = lines[upto - 1];
        assert(!is_header(line));
        let so_far = servers_between(lines, files, header + 1, upto - 1);
        assert(so_far + Seq::<Seq<char>>::empty() =~= so_far);
        assert(so_far + seq![last_token(line)] =~= so_far.push(last_token(line)));
    }
}

/// A configuration that can be read gives one repository for each header
/// that names one, in the order of the headers and under the headers' names.
/// The header of the options gives none.
pub proof fn law_one_repository_for_each_section(text: Seq<char>, files: Seq<MirrorFileView>)
    requires
        repositories_of(text, files) is Ok,
    ensures
        names_of(repositories_of(text, files)->Ok_0) == sections_among(
            lines_of(text),
            lines_of(text).len() as int,
        ),
{
    let lines = lines_of(text);
    lemma_scan_names(lines, files, lines.len() as int);
}

/// In a configuration that can be read, the repository of a section has
/// exactly the servers that the lines between its header and the next header
/// give, in their order: the lines of no other section, and none of those
/// that follow the header of the options. `header` is the line of the
/// section's header and `next` that of the next header, or the number of
/// lines where no header follows.
pub proof fn law_servers_of_a_section(
    text: Seq<char>,
    files: Seq<MirrorFileView>,
    header: int,
    next: int,
)
    requires
        repositories_of(text, files) is Ok,
        0 <= header < next <= lines_of(text).len(),
        kind_of(lines_of(text)[header]) is Section,
        forall|j: int| header < j < next ==> !is_header(#[trigger] lines_of(text)[j]),
        next < lines_of(text).len() ==> is_header(lines_of(text)[next]),
    ensures
        sections_among(lines_of(text), header).len() < repositories_of(text, files)->Ok_0.len(),
        repositories_of(text, files)->Ok_0[sections_among(lines_of(text), header).len() as int]
            == (RepositoryView {
            name: kind_of(lines_of(text)[header])->Section_0,
            servers: servers_between(lines_of(text), files, header + 1, next),
        }),
{
    let lines = lines_of(text);
    let n = lines.len() as int;
    lemma_done_stays(lines, files, next, n);
    lemma_open_section(lines, files, header, next);
    lemma_scan_names(lines, files, header);
    let start = scan_of(lines, files, header)->Ok_0;
    let position = closed(start).len() as int;
    assert(names_of(closed(start)).len() == position);
    if next < n {
        lemma_done_stays(lines, files, next + 1, n);
        let then = scan_of(lines, files, next + 1)->Ok_0;
        assert(then.done == closed(scan_of(lines, files, next)->Ok_0));
        assert(then.done[position] == scan_of(lines, files, n)->Ok_0.done[position]);
    }
}

/// The lines that follow the header of the options, up to the next header,
/// open no section and give no server to any repository.
pub proof fn law_options_give_nothing(
    lines: Seq<Seq<char>>,
    files: Seq<MirrorFileView>,
    header: int,
    upto: int,
)
    requires
        0 <= header < upto <= lines.len(),
        scan_of(lines, files, header) is Ok,
        kind_of(lines[header]) is Options,
        forall|j: int| header < j < upto ==> !is_header(#[trigger] lines[j]),
    ensures
        scan_of(lines, files, upto) == Ok::<Scan, Error>(
            Scan { done: closed(scan_of(lines, files, header)->Ok_0), open: None },
        ),
    decreases upto,
{
    if upto > header + 1 {
        law_options_give_nothing(lines, files, header, upto - 1);
        assert(!is_header(lines[upto - 1]));
    }
}

} // verus!
