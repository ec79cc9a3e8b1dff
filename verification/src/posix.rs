//! The Posix path dialect.

use crate::pure::Dialect;
use crate::pure::ParsablePath;
use crate::pure::PurePath;
use vstd::prelude::*;

verus! {

/// A pure path for Posix systems: `/` separates components, `.`
/// separates a file stem from its extension, and there are no drives.
#[derive(Debug, Clone)]
pub struct PurePosixPath {
    path: String,
}

/// The customary shorter name of [`PurePosixPath`].
pub type PosixPath = PurePosixPath;

impl ParsablePath for PurePosixPath {
    open spec fn spec_dialect() -> Dialect {
        Dialect {
            primary_separator: '/',
            secondary_separator: None,
            extension_separator: '.',
            drive_separator: None,
        }
    }

    fn dialect() -> (d: Dialect) {
        Dialect {
            primary_separator: '/',
            secondary_separator: None,
            extension_separator: '.',
            drive_separator: None,
        }
    }
}

impl PurePath for PurePosixPath {
    closed spec fn text(&self) -> Seq<char> {
        self.path@
    }

    fn as_text(&self) -> (r: &str) {
        self.path.as_str()
    }

    fn from_text(s: &str) -> (r: Self) {
        PurePosixPath { path: s.to_owned() }
    }

    fn from_string(s: String) -> (r: Self) {
        PurePosixPath { path: s }
    }
}

impl PartialEq for PurePosixPath {
    /// Two paths are equal when their texts are equal.
    fn eq(&self, other: &Self) -> (r: bool) {
        self.path == other.path
    }
}

impl vstd::std_specs::cmp::PartialEqSpecImpl for PurePosixPath {
    open spec fn obeys_eq_spec() -> bool {
        true
    }

    open spec fn eq_spec(&self, other: &Self) -> bool {
        self.text() == other.text()
    }
}

impl<'a> From<&'a str> for PurePosixPath {
    /// A path holding the given text.
    fn from(s: &'a str) -> (r: Self)
        ensures
            r.text() == s@,
    {
        Self::from_text(s)
    }
}

impl<'a> vstd::std_specs::convert::FromSpecImpl<&'a str> for PurePosixPath {
    open spec fn obeys_from_spec() -> bool {
        false
    }

    open spec fn from_spec(s: &'a str) -> Self {
        arbitrary()
    }
}

impl From<String> for PurePosixPath {
    /// A path taking over the given text buffer.
    fn from(s: String) -> (r: Self)
        ensures
            r.text() == s@,
    {
        Self::from_string(s)
    }
}

impl vstd::std_specs::convert::FromSpecImpl<String> for PurePosixPath {
    open spec fn obeys_from_spec() -> bool {
        false
    }

    open spec fn from_spec(s: String) -> Self {
        arbitrary()
    }
}

} // verus!
