//! The ways in which resolving a dependency tree can fail.

use vstd::prelude::*;

verus! {

/// What it is about a requirement string that is not well formed.
#[derive(Clone, Copy, Debug, PartialEq, Eq, Structural)]
pub enum FormatFault {
    /// The string that names the root is not of the shape
    /// `host/owner/name@version`.
    Repository,
    /// A requirement has other than three `/`-delimited segments.
    Segments,
    /// A requirement does not end in a name and a version, `name@version`.
    Version,
}

/// Why a requirement could not be resolved or a tree could not be built.
///
/// Every error ends the build of the whole tree but `LicenseNotFoundError`:
/// a missing license is an ordinary outcome, and the node is then labelled
/// with [`crate::package::UNKNOWN_LICENSE`].
#[derive(Debug, PartialEq, Eq)]
pub enum BuildError {
    /// A requirement string is not of the shape `host/owner/name@version`.
    ArgumentFormatError(FormatFault),
    /// The first segment of a requirement string names no known host; it is
    /// the segment that the error holds.
    PlatformUnsupportedError(String),
    /// The page behind a vanity import path could not be had, or names no
    /// canonical location.
    ResolutionError,
    /// A module has no manifest file, or more than one.
    ManifestFetchError,
    /// A manifest opens a requirement block and never closes it, or holds a
    /// requirement line without a module or a version.
    ManifestParseError,
    /// The host has detected no license for a module.
    LicenseNotFoundError,
    /// A request to the host could not be completed; the error holds what the
    /// host or the network said.
    LookupError(String),
}

/// What a [`BuildError`] stands for.
pub enum Failure {
    ArgumentFormatError(FormatFault),
    PlatformUnsupportedError(Seq<char>),
    ResolutionError,
    ManifestFetchError,
    ManifestParseError,
    LicenseNotFoundError,
    LookupError(Seq<char>),
}

impl View for BuildError {
    type V = Failure;

    open spec fn view(&self) -> Failure {
        match self {
            BuildError::ArgumentFormatError(fault) => Failure::ArgumentFormatError(*fault),
            BuildError::PlatformUnsupportedError(host) => Failure::PlatformUnsupportedError(host@),
            BuildError::ResolutionError => Failure::ResolutionError,
            BuildError::ManifestFetchError => Failure::ManifestFetchError,
            BuildError::ManifestParseError => Failure::ManifestParseError,
            BuildError::LicenseNotFoundError => Failure::LicenseNotFoundError,
            BuildError::LookupError(said) => Failure::LookupError(said@),
        }
    }
}

/// The sentence that tells the user of a failure. An unknown host is named
/// in it, and what the host or the network said is handed on unchanged.
pub open spec fn message_text(failure: Failure) -> Seq<char> {
    match failure {
        Failure::ArgumentFormatError(FormatFault::Repository) => "Invalid repository format"@,
        Failure::ArgumentFormatError(FormatFault::Segments) => "Invalid argument format"@,
        Failure::ArgumentFormatError(FormatFault::Version) => "Invalid argument format (repo@version)"@,
        Failure::PlatformUnsupportedError(host) => "Invalid platform: "@ + host,
        Failure::ResolutionError => "Canonical location not found"@,
        Failure::ManifestFetchError => "Invalid number of go.mod files"@,
        Failure::ManifestParseError => "Invalid go.mod file"@,
        Failure::LicenseNotFoundError => "License not found"@,
        Failure::LookupError(said) => said,
    }
}

impl BuildError {
    /// A sentence for the user.
    pub fn message(&self) -> (text: String)
        ensures
            text@ == message_text(self@),
    {
        match self {
            BuildError::ArgumentFormatError(FormatFault::Repository) => {
                "Invalid repository format".to_owned()
            },
            BuildError::ArgumentFormatError(FormatFault::Segments) => {
                "Invalid argument format".to_owned()
            },
            BuildError::ArgumentFormatError(FormatFault::Version) => {
                "Invalid argument format (repo@version)".to_owned()
            },
            BuildError::PlatformUnsupportedError(host) => {
                let mut text = "Invalid platform: ".to_owned();
                text.append(host.as_str());
                text
            },
            BuildError::ResolutionError => "Canonical location not found".to_owned(),
            BuildError::ManifestFetchError => "Invalid number of go.mod files".to_owned(),
            BuildError::ManifestParseError => "Invalid go.mod file".to_owned(),
            BuildError::LicenseNotFoundError => "License not found".to_owned(),
            BuildError::LookupError(said) => said.clone(),
        }
    }
}

} // verus!
