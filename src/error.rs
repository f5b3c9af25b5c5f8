//! Errors of the library.

use vstd::prelude::*;

verus! {

/// What went wrong, by kind.
#[derive(Debug, Clone, PartialEq, Eq)]
pub enum Error {
    // Invalid user input
    InvalidDigest(String),
    InvalidName(String),
    InvalidPort(String),
    InvalidReference(String),
    InvalidUrl(String),
    InvalidTargetTriple(String),
    NotAFile(String),
    NotADirectory(String),
    ImageAlreadyExists(String),
    // Invalid image layout
    UnknownDigest(String),
    MissingIndex,
    MissingManifest,
    MultipleManifests(usize),
    MissingManifestName,
    MissingLayer,
    UnsupportedLayer(String),
    MissingArtifactType,
    InvalidJson(String),
    InvalidToml(String),
    // Integrity of copied content
    DigestMismatch(String, String),
    SizeMismatch(u64, u64),
    // Executables
    DynamicallyLinked,
    UnsupportedArchitecture(u16),
    UnsupportedOsAbi(u8),
    MultipleExecutables,
    InvalidElf,
    // Registry
    NetworkError(String),
    RegistryError(String),
    AuthorizationFailed(String),
    UnsupportedAuthHeader(String),
    // System
    NoValidRuntimeDirectory,
    NoValidAuthInfo,
    UnknownIo(String),
}

impl Error {
    pub open spec fn is_invalid_digest(&self, input: Seq<char>) -> bool {
        match self {
            Error::InvalidDigest(m) => m@ == input,
            _ => false,
        }
    }

    pub open spec fn is_invalid_name(&self, input: Seq<char>) -> bool {
        match self {
            Error::InvalidName(m) => m@ == input,
            _ => false,
        }
    }

    pub open spec fn is_invalid_reference(&self, input: Seq<char>) -> bool {
        match self {
            Error::InvalidReference(m) => m@ == input,
            _ => false,
        }
    }

    pub open spec fn is_invalid_port(&self, input: Seq<char>) -> bool {
        match self {
            Error::InvalidPort(m) => m@ == input,
            _ => false,
        }
    }

    pub open spec fn is_unsupported_auth_header(&self, input: Seq<char>) -> bool {
        match self {
            Error::UnsupportedAuthHeader(m) => m@ == input,
            _ => false,
        }
    }
}

} // verus!
