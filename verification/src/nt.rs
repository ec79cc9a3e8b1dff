//! The Windows path dialect.

use crate::pure::Dialect;
use crate::pure::ParsablePath;
use crate::pure::PurePath;
use vstd::prelude::*;

verus! {

/// A pure path for Windows systems: `\` and `/` separate components,
/// `.` separates a file stem from its extension, and `:` separates a
/// drive prefix from the rest of the path.
#[derive(Debug, Clone)]
pub struct WindowsPath {
    path: String,
}

impl ParsablePath for WindowsPath {
    open spec fn spec_dialect() -> Dialect {
        Dialect {
            primary_separator: '\\',
            secondary_separator: Some('/'),
            extension_separator: '.',
            drive_separator: Some(':'),
        }
    }

    fn dialect() -> (d: Dialect) {
        Dialect {
            primary_separator: '\\',
            secondary_separator: Some('/'),
            extension_separator: '.',
            drive_separator: Some(':'),
        }
    }
}

impl PurePath for WindowsPath {
    closed spec fn text(&self) -> Seq<char> {
        self.path@
    }

    fn as_text(&self) -> (r: &str) {
        self.path.as_str()
    }

    fn from_text(s: &str) -> (r: Self) {
        WindowsPath { path: s.to_owned() }
    }

    fn from_string(s: String) -> (r: Self) {
        WindowsPath { path: s }
    }
}

impl PartialEq for WindowsPath {
    /// Two paths are equal when their texts are equal.
    fn eq(&self, other: &Self) -> (r: bool) {
        self.path == other.path
    }
}

impl vstd::std_specs::cmp::PartialEqSpecImpl for WindowsPath {
    open spec fn obeys_eq_spec() -> bool {
        true
    }

    open spec fn eq_spec(&self, other: &Self) -> bool {
        self.text() == other.text()
    }
}

impl<'a> From<&'a str> for WindowsPath {
    /// A path holding the given text.
    fn from(s: &'a str) -> (r: Self)
        ensures
            r.text() == s@,
    {
        Self::from_text(s)
    }
}

impl<'a> vstd::std_specs::convert::FromSpecImpl<&'a str> for WindowsPath {
    open spec fn obeys_from_spec() -> bool {
        false
    }

    open spec fn from_spec(s: &'a str) -> Self {
        arbitrary()
    }
}

impl From<String> for WindowsPath {
    /// A path taking over the given text buffer.
    fn from(s: String) -> (r: Self)
        ensures
            r.text() == s@,
    {
        Self::from_string(s)
    }
}

impl vstd::std_specs::convert::FromSpecImpl<String> for WindowsPath {
    open spec fn obeys_from_spec() -> bool {
        false
    }

    open spec fn from_spec(s: String) -> Self {
        arbitrary()
    }
}

} // verus!
