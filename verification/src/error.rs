//! What can end a run.

use vstd::prelude::*;

verus! {

/// The failures of a run. Each one is fatal: nothing is retried beyond what
/// the resolver and the registry client do on their own.
#[derive(Clone, Copy, Debug, PartialEq, Eq, Structural)]
pub enum InstallError {
    /// The root manifest is missing or cannot be read.
    Manifest,
    /// A package's index holds no version that can be parsed.
    Resolution,
    /// The transport failed, or the registry answered with a failure status
    /// for which no fallback is left.
    Network,
    /// A response body does not have the expected shape.
    Parse,
    /// An archive cannot be read or one of its entries cannot be written.
    Extraction,
}

impl InstallError {
    /// A short description for the user.
    pub fn describe(&self) -> (text: &'static str)
        ensures
            text@ == self.description(),
    {
        match self {
            InstallError::Manifest => "manifest missing or unreadable",
            InstallError::Resolution => "no parseable version published",
            InstallError::Network => "registry request failed",
            InstallError::Parse => "unexpected response body",
            InstallError::Extraction => "archive could not be extracted",
        }
    }

    /// The text that [`InstallError::describe`] returns.
    pub open spec fn description(&self) -> Seq<char> {
        match self {
            InstallError::Manifest => "manifest missing or unreadable"@,
            InstallError::Resolution => "no parseable version published"@,
            InstallError::Network => "registry request failed"@,
            InstallError::Parse => "unexpected response body"@,
            InstallError::Extraction => "archive could not be extracted"@,
        }
    }
}

} // verus!
