//! The ways in which a run can fail.

use vstd::prelude::*;

verus! {

#[derive(Debug, Clone, Copy, PartialEq, Eq, Structural)]
pub enum Error {
    /// The repository configuration or a mirror list that it names is absent.
    ConfigMissing,
    /// A section header of the configuration has no closing bracket.
    ConfigMalformed,
    /// None of a repository's servers answered.
    FetchFailed,
    /// A repository database is no gzip stream or holds no readable archive.
    DecodeFailed,
    /// A description record of a repository database is no text.
    RecordMalformed,
}

impl Error {
    /// The message that describes the failure.
    pub fn message(&self) -> (m: String)
        ensures
            m@ == match *self {
                Error::ConfigMissing => "mirrorlist does not exist"@,
                Error::ConfigMalformed => "section header is not closed"@,
                Error::FetchFailed => "unable to fetch database from any servers"@,
                Error::DecodeFailed => "unable to decode database"@,
                Error::RecordMalformed => "unable to read package description"@,
            },
    {
        match self {
            Error::ConfigMissing => "mirrorlist does not exist".to_owned(),
            Error::ConfigMalformed => "section header is not closed".to_owned(),
            Error::FetchFailed => "unable to fetch database from any servers".to_owned(),
            Error::DecodeFailed => "unable to decode database".to_owned(),
            Error::RecordMalformed => "unable to read package description".to_owned(),
        }
    }
}

} // verus!
