//! Repository databases: a gzip stream of an archive whose `desc` members are
//! package description records.

use crate::error::Error;
use crate::packages::{merge_packages, merged, packages_view, PackageMap};
use crate::record::{read_package_desc, record_of, Package, PackageView};
use std::io::Read;
use vstd::prelude::*;
use vstd::string::*;
use vstd::utf8::{decode_utf8, valid_utf8};

verus! {

/// One member of an archive: whether it is a regular file, its path and its
/// content.
#[derive(Debug)]
pub struct Member {
    pub regular: bool,
    pub path: Vec<u8>,
    pub content: Vec<u8>,
}

impl View for Member {
    type V = (bool, Seq<u8>, Seq<u8>);

    open spec fn view(&self) -> (bool, Seq<u8>, Seq<u8>) {
        (self.regular, self.path@, self.content@)
    }
}

pub open spec fn members_view(v: Seq<Member>) -> Seq<(bool, Seq<u8>, Seq<u8>)> {
    Seq::new(v.len(), |i: int| v[i]@)
}

/// The bytes that a gzip stream holds, as `flate2` reads them; `None` where
/// it cannot read the stream to its end.
pub uninterp spec fn gzip_decoded(data: Seq<u8>) -> Option<Seq<u8>>;

/// The members of an archive in its order, as `tar` reads them, each with
/// whether it is a regular file, its path and its content; `None` where it
/// cannot read the archive to its end.
pub uninterp spec fn archive_listing(data: Seq<u8>) -> Option<Seq<(bool, Seq<u8>, Seq<u8>)>>;

/// Reads a gzip stream to its end with `flate2::read::GzDecoder`. The
/// contract only names what the decoder gives for these bytes.
#[verifier::external_body]
fn gunzip(data: &[u8]) -> (r: Option<Vec<u8>>)
    ensures
        match r {
            Some(bytes) => gzip_decoded(data@) == Some(bytes@),
            None => gzip_decoded(data@) is None,
        },
{
    let mut bytes = Vec::new();
    match flate2::read::GzDecoder::new(data).read_to_end(&mut bytes) {
        Ok(_) => Some(bytes),
        Err(_) => None,
    }
}

/// Walks the entries of an archive with `tar::Archive::entries` and hands
/// each out with `EntryType::is_file` of its header, `Entry::path_bytes` and
/// the bytes that reading the entry gives. The contract only names what the
/// crate gives for these bytes.
#[verifier::external_body]
fn list_archive(data: &[u8]) -> (r: Option<Vec<Member>>)
    ensures
        match r {
            Some(members) => archive_listing(data@) == Some(members_view(members@)),
            None => archive_listing(data@) is None,
        },
{
    let mut archive = tar::Archive::new(data);
    let mut members = Vec::new();
    for entry in archive.entries().ok()? {
        let mut entry = entry.ok()?;
        let regular = entry.header().entry_type().is_file();
        let path = entry.path_bytes().into_owned();
        let mut content = Vec::new();
        entry.read_to_end(&mut content).ok()?;
        members.push(Member { regular, path, content });
    }
    Some(members)
}

/// Turns bytes into text with `String::from_utf8`, which gives the text that
/// they encode where they are valid UTF-8 and fails where they are not.
#[verifier::external_body]
fn text_of(bytes: Vec<u8>) -> (r: Option<String>)
    ensures
        match r {
            Some(text) => valid_utf8(bytes@) && text@ == decode_utf8(bytes@),
            None => !valid_utf8(bytes@),
        },
{
    String::from_utf8(bytes).ok()
}

/// Whether the last component of a path is `desc`.
pub open spec fn names_desc(path: Seq<u8>) -> bool {
    let n = path.len() as int;
    &&& n >= 4
    &&& path[n - 4] == 0x64
    &&& path[n - 3] == 0x65
    &&& path[n - 2] == 0x73
    &&& path[n - 1] == 0x63
    &&& (n == 4 || path[n - 5] == 0x2f)
}

/// Whether the last component of a path is `desc`.
pub fn is_desc_path(path: &[u8]) -> (r: bool)
    ensures
        r == names_desc(path@),
{
    let n = path.len();
    n >= 4 && path[n - 4] == 0x64 && path[n - 3] == 0x65 && path[n - 2] == 0x73 && path[n - 1]
        == 0x63 && (n == 4 || path[n - 5] == 0x2f)
}

/// The record of a package that a repository's database describes: what the
/// description says, under the repository's name.
pub open spec fn stamped(record: PackageView, repo: Seq<char>) -> PackageView {
    PackageView { name: record.name, version: record.version, repo }
}

/// The packages that the first `upto` members of an archive describe, in the
/// archive's order: one for each regular file called `desc`. A description
/// that is no text fails the whole archive.
pub open spec fn records_among(
    repo: Seq<char>,
    members: Seq<(bool, Seq<u8>, Seq<u8>)>,
    upto: int,
) -> Result<Seq<PackageView>, Error>
    decreases upto,
{
    if upto <= 0 {
        Ok(Seq::empty())
    } else {
        match records_among(repo, members, upto - 1) {
            Err(e) => Err(e),
            Ok(before) => {
                let member = members[upto - 1];
                if member.0 && names_desc(member.1) {
                    if valid_utf8(member.2) {
                        Ok(before.push(stamped(record_of(decode_utf8(member.2)), repo)))
                    } else {
                        Err(Error::RecordMalformed)
                    }
                } else {
                    Ok(before)
                }
            },
        }
    }
}

/// The packages that the members of an archive describe.
pub open spec fn records_of(repo: Seq<char>, members: Seq<(bool, Seq<u8>, Seq<u8>)>) -> Result<
    Seq<PackageView>,
    Error,
> {
    records_among(repo, members, members.len() as int)
}

/// The packages that a repository's database describes: the records of the
/// archive that its gzip stream holds.
pub open spec fn database_records(repo: Seq<char>, body: Seq<u8>) -> Result<
    Seq<PackageView>,
    Error,
> {
    match gzip_decoded(body) {
        None => Err(Error::DecodeFailed),
        Some(archive) => match archive_listing(archive) {
            None => Err(Error::DecodeFailed),
            Some(members) => records_of(repo, members),
        },
    }
}

/// A failure among the first members is the failure of the archive.
pub proof fn lemma_failure_stays(
    repo: Seq<char>,
    members: Seq<(bool, Seq<u8>, Seq<u8>)>,
    at: int,
    upto: int,
)
    requires
        at <= upto,
        records_among(repo, members, at) is Err,
    ensures
        records_among(repo, members, upto) == records_among(repo, members, at),
    decreases upto,
{
    if at < upto {
        lemma_failure_stays(repo, members, at, upto - 1);
    }
}

/// Reads the package descriptions among the members of a repository's
/// archive and stamps each with the repository's name.
pub fn packages_from_members(repo: &str, members: &Vec<Member>) -> (r: Result<
    Vec<Package>,
    Error,
>)
    ensures
        match r {
            Ok(packages) => records_of(repo@, members_view(members@)) == Ok::<
                Seq<PackageView>,
                Error,
            >(packages_view(packages@)),
            Err(e) => records_of(repo@, members_view(members@)) == Err::<Seq<PackageView>, Error>(
                e,
            ),
        },
{
    let n = members.len();
    let mut packages: Vec<Package> = Vec::new();
    let mut i: usize = 0;
    assert(packages_view(packages@) =~= Seq::empty());
    while i < n
        invariant
            i <= n,
            n == members@.len(),
            records_among(repo@, members_view(members@), i as int) == Ok::<
                Seq<PackageView>,
                Error,
            >(packages_view(packages@)),
        decreases n - i,
    {
        let member = &members[i];
        assert(members_view(members@)[i as int] == member@);
        if member.regular && is_desc_path(member.path.as_slice()) {
            match text_of(member.content.clone()) {
                None => {
                    proof {
                        lemma_failure_stays(repo@, members_view(members@), i + 1, n as int);
                    }
                    return Err(Error::RecordMalformed);
                },
                Some(text) => {
                    match read_package_desc(text) {
                        Ok(record) => {
                            let package = Package::new(
                                record.name,
                                record.version,
                                repo.to_owned(),
                            );
                            assert(packages_view(packages@.push(package)) =~= packages_view(
                                packages@,
                            ).push(package@));
                            packages.push(package);
                        },
                        Err(_) => {
                            return Err(Error::RecordMalformed);
                        },
                    }
                },
            }
        }
        i += 1;
    }
    Ok(packages)
}

/// Decodes a repository's database: the gzip stream, the archive in it, and
/// the package descriptions among its members.
pub fn decode_database(repo: &str, body: &[u8]) -> (r: Result<Vec<Package>, Error>)
    ensures
        match r {
            Ok(packages) => database_records(repo@, body@) == Ok::<Seq<PackageView>, Error>(
                packages_view(packages@),
            ),
            Err(e) => database_records(repo@, body@) == Err::<Seq<PackageView>, Error>(e),
        },
{
    match gunzip(body) {
        None => Err(Error::DecodeFailed),
        Some(archive) => match list_archive(archive.as_slice()) {
            None => Err(Error::DecodeFailed),
            Some(members) => packages_from_members(repo, &members),
        },
    }
}

/// Adds the packages of a repository's database to the remote packages. A
/// database that cannot be decoded leaves the map as it was.
pub fn get_remote_packages(map: &mut PackageMap, repo: &str, body: &[u8]) -> (r: Result<
    (),
    Error,
>)
    requires
        old(map).wf(),
    ensures
        final(map).wf(),
        match database_records(repo@, body@) {
            Ok(packages) => r is Ok && final(map)@ == merged(
                old(map)@,
                packages,
                packages.len() as int,
            ),
            Err(e) => r == Err::<(), Error>(e) && final(map)@ == old(map)@,
        },
{
    match decode_database(repo, body) {
        Ok(packages) => {
            merge_packages(map, &packages);
            Ok(())
        },
        Err(e) => Err(e),
    }
}

} // verus!
