//! Where a repository's database is asked for: the address that a server
//! template gives, and which server is asked next.

use crate::config::Repository;
use crate::error::Error;
use crate::text::{replaced, texts};
use vstd::prelude::*;
use vstd::string::*;

verus! {

/// A server template with `$repo` replaced by the repository's name and then
/// `$arch` by the architecture.
pub open spec fn substituted(url: Seq<char>, repo: Seq<char>, arch: Seq<char>) -> Seq<char> {
    replaced(replaced(url, "$repo"@, repo), "$arch"@, arch)
}

/// The address of a repository's database on a server.
pub open spec fn database_address(server: Seq<char>, repo: Seq<char>, arch: Seq<char>) -> Seq<
    char,
> {
    substituted(server, repo, arch) + "/"@ + repo + ".db"@
}

/// Whether `pat`, of `m` characters, stands in `s` at position `at`.
fn stands_at(s: &str, pat: &str, m: usize, at: usize) -> (r: bool)
    requires
        m == pat@.len(),
        at + m <= s@.len(),
        s@.len() <= usize::MAX,
    ensures
        r == pat@.is_prefix_of(s@.subrange(at as int, s@.len() as int)),
{
    let ghost rest = s@.subrange(at as int, s@.len() as int);
    let mut k: usize = 0;
    while k < m
        invariant
            m == pat@.len(),
            at + m <= s@.len() <= usize::MAX,
            k <= m,
            rest == s@.subrange(at as int, s@.len() as int),
            forall|j: int| 0 <= j < k ==> pat@[j] == rest[j],
        decreases m - k,
    {
        if s.get_char(at + k) != pat.get_char(k) {
            assert(rest.subrange(0, m as int)[k as int] != pat@[k as int]);
            return false;
        }
        k += 1;
    }
    assert(pat@ =~= rest.subrange(0, m as int));
    true
}

/// Replaces every occurrence of `pat` in `s` by `with`.
pub fn replace_all(s: &str, pat: &str, with: &str) -> (out: String)
    ensures
        out@ == replaced(s@, pat@, with@),
{
    let n = s.unicode_len();
    let m = pat.unicode_len();
    if m == 0 {
        return s.to_owned();
    }
    let mut out = String::new();
    let mut i: usize = 0;
    assert(s@.subrange(0, n as int) =~= s@);
    assert(out@ + s@ =~= s@);
    while i < n
        invariant
            n == s@.len(),
            m == pat@.len(),
            m > 0,
            i <= n,
            out@ + replaced(s@.subrange(i as int, n as int), pat@, with@) == replaced(
                s@,
                pat@,
                with@,
            ),
        decreases n - i,
    {
        let ghost rest = s@.subrange(i as int, n as int);
        if n - i < m {
            out.append(s.substring_char(i, n));
            proof {
                assert(s@.subrange(n as int, n as int) =~= Seq::<char>::empty());
                assert(replaced(Seq::<char>::empty(), pat@, with@) =~= Seq::<char>::empty());
                assert(out@ + Seq::<char>::empty() =~= out@);
            }
            i = n;
        } else if stands_at(s, pat, m, i) {
            proof {
                assert(rest.subrange(m as int, rest.len() as int) =~= s@.subrange(
                    i + m,
                    n as int,
                ));
                assert((out@ + with@) + replaced(s@.subrange(i + m, n as int), pat@, with@)
                    =~= out@ + (with@ + replaced(s@.subrange(i + m, n as int), pat@, with@)));
            }
            out.append(with);
            i += m;
        } else {
            proof {
                assert(rest.drop_first() =~= s@.subrange(i + 1, n as int));
                assert(seq![rest[0]] =~= s@.subrange(i as int, i + 1));
                assert((out@ + s@.subrange(i as int, i + 1)) + replaced(
                    s@.subrange(i + 1, n as int),
                    pat@,
                    with@,
                ) =~= out@ + (seq![rest[0]] + replaced(s@.subrange(i + 1, n as int), pat@, with@)));
            }
            out.append(s.substring_char(i, i + 1));
            i += 1;
        }
    }
    proof {
        assert(s@.subrange(n as int, n as int) =~= Seq::<char>::empty());
        assert(out@ + Seq::<char>::empty() =~= out@);
    }
    out
}

/// Fills a server template in: `$repo` becomes the repository's name and
/// `$arch` the architecture.
pub fn substitute_url_vars(url: &String, repo: &String, arch: &str) -> (out: String)
    ensures
        out@ == substituted(url@, repo@, arch@),
{
    let named = replace_all(url.as_str(), "$repo", repo.as_str());
    replace_all(named.as_str(), "$arch", arch)
}

/// The address at which a server offers a repository's database.
pub fn database_url(server: &String, repo: &String, arch: &str) -> (url: String)
    ensures
        url@ == database_address(server@, repo@, arch@),
{
    let mut url = substitute_url_vars(server, repo, arch);
    url.append("/");
    url.append(repo.as_str());
    url.append(".db");
    url
}

/// What to do for a repository's database after some of its servers failed.
#[derive(Debug)]
pub enum FetchStep {
    /// Ask the server at this position of the repository's list, at this
    /// address.
    Ask { server: usize, url: String },
    /// Every server has failed.
    GiveUp(Error),
}

/// Decides what to do for the database of `repo` when its first `failed`
/// servers have been asked in vain: the next server of the list is asked, and
/// when none is left the fetch has failed. The first server that answers
/// ends the asking, so no step follows a success.
pub fn get_remote_database(repo: &Repository, arch: &str, failed: usize) -> (step: FetchStep)
    ensures
        match step {
            FetchStep::Ask { server, url } => {
                &&& failed < repo@.servers.len()
                &&& server == failed
                &&& url@ == database_address(repo@.servers[failed as int], repo@.name, arch@)
            },
            FetchStep::GiveUp(e) => failed >= repo@.servers.len() && e == Error::FetchFailed,
        },
{
    if failed < repo.servers.len() {
        let url = database_url(&repo.servers[failed], &repo.name, arch);
        FetchStep::Ask { server: failed, url }
    } else {
        FetchStep::GiveUp(Error::FetchFailed)
    }
}

} // verus!
