//! Finds the installed packages whose version differs from the one that the
//! configured repositories offer.
//!
//! The library parses package description records and the repository
//! configuration, decides which mirror to ask next, decodes a fetched
//! repository database, and joins the local and the remote package maps into
//! a list ordered by repository and package name.

pub mod archive;
pub mod compare;
pub mod config;
pub mod error;
pub mod fetch;
pub mod packages;
pub mod record;
pub mod text;
