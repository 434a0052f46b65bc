//! The error taxonomy of the host, with the exact diagnostic text each error
//! produces on the console.

use vstd::prelude::*;
use vstd::string::StringExecFns;

verus! {

/// Why the startup configuration was rejected. Either error is fatal: no
/// listener is started once the route table cannot be built.
#[derive(Clone, Copy, PartialEq, Eq, Structural, Debug)]
pub enum ConfigError {
    /// The configuration tokens do not pair up: a local path was given
    /// without a virtual path to serve it under.
    OddTokenCount,
    /// A virtual path does not begin with `/`.
    MissingLeadingSlash,
}

/// Why a single request was not served. The connection is abandoned without a
/// success status line in either case.
#[derive(Clone, Copy, PartialEq, Eq, Structural, Debug)]
pub enum RequestError {
    /// The request held no line, or its first line held fewer than two
    /// space-separated fields.
    MalformedRequest,
    /// The request line parsed, but its path is not in the route table.
    NotFound,
}

/// Why a listen endpoint failed to bind. Fatal for that endpoint only; the
/// other endpoints keep serving.
#[derive(Clone, Copy, PartialEq, Eq, Structural, Debug)]
pub enum BindErrorKind {
    PermissionDenied,
    AddressInUse,
    AddressUnavailable,
    Other,
}

impl ConfigError {
    /// The diagnostic printed when the configuration is rejected.
    pub open spec fn spec_message(self) -> Seq<char> {
        match self {
            ConfigError::OddTokenCount => "Files must be paired with a \"display name\", which will be used as the user will access the files with.\n i.e. ... -f /home/user/Downloads/thisfile.txt /thisfile.txt ..."@,
            ConfigError::MissingLeadingSlash => "File display names must start with a \"/\" i.e. /file.txt, not just file.txt"@,
        }
    }

    /// Renders the diagnostic for this configuration error.
    pub fn message(&self) -> (r: String)
        ensures
            r@ == self.spec_message(),
    {
        match self {
            ConfigError::OddTokenCount => String::from_str("Files must be paired with a \"display name\", which will be used as the user will access the files with.\n i.e. ... -f /home/user/Downloads/thisfile.txt /thisfile.txt ..."),
            ConfigError::MissingLeadingSlash => String::from_str("File display names must start with a \"/\" i.e. /file.txt, not just file.txt"),
        }
    }
}

impl RequestError {
    /// The diagnostic for a failed request. Both kinds are reported with the
    /// same words on the console; the kinds stay distinct so a caller can
    /// still tell them apart.
    pub open spec fn spec_message(self) -> Seq<char> {
        "HTTP Request line was malformed"@
    }

    /// Renders the diagnostic for this request error.
    pub fn message(&self) -> (r: String)
        ensures
            r@ == self.spec_message(),
    {
        String::from_str("HTTP Request line was malformed")
    }
}

impl BindErrorKind {
    /// The diagnostic printed when binding `address` fails with this kind.
    /// `detail` is the underlying error's own text; only the `Other` kind
    /// quotes it.
    pub open spec fn spec_diagnostic(self, address: Seq<char>, detail: Seq<char>) -> Seq<char> {
        match self {
            BindErrorKind::PermissionDenied => "Failed to bind to address "@ + address
                + " due to insufficient permission. Try running as sudo/administrator."@,
            BindErrorKind::AddressInUse => "Failed to bind to address "@ + address
                + " since it is already in use. Try stopping the process already using this address."@,
            BindErrorKind::AddressUnavailable => "Failed to bind to address "@ + address
                + " since it doesn't exist. Try setting the address to a real interface that is owned by this device."@,
            BindErrorKind::Other => "Failed to bind to address "@ + address + ": "@ + detail,
        }
    }

    /// Renders the diagnostic for a failed bind of `address`.
    pub fn diagnostic(&self, address: &str, detail: &str) -> (r: String)
        ensures
            r@ == self.spec_diagnostic(address@, detail@),
    {
        let head = String::from_str("Failed to bind to address ").concat(address);
        match self {
            BindErrorKind::PermissionDenied => head.concat(
                " due to insufficient permission. Try running as sudo/administrator.",
            ),
            BindErrorKind::AddressInUse => head.concat(
                " since it is already in use. Try stopping the process already using this address.",
            ),
            BindErrorKind::AddressUnavailable => head.concat(
                " since it doesn't exist. Try setting the address to a real interface that is owned by this device.",
            ),
            BindErrorKind::Other => head.concat(": ").concat(detail),
        }
    }
}

} // verus!
