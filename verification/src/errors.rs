use vstd::prelude::*;

verus! {

/// An error raised while parsing filter tokens, policies or fingerprints, or
/// while looking a relay up.
#[derive(Debug, Clone, PartialEq, Eq)]
pub enum Error {
    /// A filter token without a key/value separator.
    InvalidFilter(String),
    /// A filter key that the grammar does not know.
    UnrecognizedFilter(String),
    /// A 40-character fingerprint that is not valid hexadecimal.
    UndecodableFingerprint(String),
    /// A fingerprint that is neither 40 nor 43 characters long.
    WrongFingerprintLength(String),
    /// A malformed port policy: bad keyword, bad number, or a range that is
    /// inverted or out of order.
    WrongPolicy(String),
    /// A malformed address or network value.
    InvalidAddress(String),
    /// A malformed port value.
    InvalidPort(String),
    /// A relay lookup by identity that found nothing.
    NoSuchRelay,
}

/// The one-line description of an error.
pub open spec fn spec_message(e: Error) -> Seq<char> {
    match e {
        Error::InvalidFilter(s) => "Invalid filter: "@ + s@,
        Error::UnrecognizedFilter(s) => "Unrecognized filter: "@ + s@,
        Error::UndecodableFingerprint(s) => "Undecodable fingerprint: "@ + s@,
        Error::WrongFingerprintLength(s) => "Wrong fingerprint length: "@ + s@,
        Error::WrongPolicy(s) => "Policy error: "@ + s@,
        Error::InvalidAddress(s) => "Invalid address: "@ + s@,
        Error::InvalidPort(s) => "Invalid port: "@ + s@,
        Error::NoSuchRelay => "No such relay"@,
    }
}

impl Error {
    /// The one-line description of the error.
    pub fn message(&self) -> (r: String)
        ensures
            r@ == spec_message(*self),
    {
        match self {
            Error::InvalidFilter(s) => String::from_str("Invalid filter: ").concat(s.as_str()),
            Error::UnrecognizedFilter(s) => String::from_str("Unrecognized filter: ").concat(
                s.as_str(),
            ),
            Error::UndecodableFingerprint(s) => String::from_str(
                "Undecodable fingerprint: ",
            ).concat(s.as_str()),
            Error::WrongFingerprintLength(s) => String::from_str(
                "Wrong fingerprint length: ",
            ).concat(s.as_str()),
            Error::WrongPolicy(s) => String::from_str("Policy error: ").concat(s.as_str()),
            Error::InvalidAddress(s) => String::from_str("Invalid address: ").concat(s.as_str()),
            Error::InvalidPort(s) => String::from_str("Invalid port: ").concat(s.as_str()),
            Error::NoSuchRelay => String::from_str("No such relay"),
        }
    }
}

} // verus!
