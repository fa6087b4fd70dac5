use vstd::prelude::*;

verus! {

/// The SDK's error, by kind. The detail is a human-readable explanation.
#[derive(Debug, Clone)]
pub enum SdkError {
    InvalidState(String),
    InvalidParameter(String),
    InvalidOperation(String),
    Storage(String),
    Network(String),
    Verification(String),
    Crypto(String),
}

/// The kind of an [`SdkError`], without its detail.
#[derive(Debug, Clone, Copy, PartialEq, Eq, Structural)]
pub enum ErrorKind {
    InvalidState,
    InvalidParameter,
    InvalidOperation,
    Storage,
    Network,
    Verification,
    Crypto,
}

impl SdkError {
    pub open spec fn spec_kind(&self) -> ErrorKind {
        match self {
            SdkError::InvalidState(_) => ErrorKind::InvalidState,
            SdkError::InvalidParameter(_) => ErrorKind::InvalidParameter,
            SdkError::InvalidOperation(_) => ErrorKind::InvalidOperation,
            SdkError::Storage(_) => ErrorKind::Storage,
            SdkError::Network(_) => ErrorKind::Network,
            SdkError::Verification(_) => ErrorKind::Verification,
            SdkError::Crypto(_) => ErrorKind::Crypto,
        }
    }

    /// The error's kind.
    pub fn kind(&self) -> (k: ErrorKind)
        ensures
            k == self.spec_kind(),
    {
        match self {
            SdkError::InvalidState(_) => ErrorKind::InvalidState,
            SdkError::InvalidParameter(_) => ErrorKind::InvalidParameter,
            SdkError::InvalidOperation(_) => ErrorKind::InvalidOperation,
            SdkError::Storage(_) => ErrorKind::Storage,
            SdkError::Network(_) => ErrorKind::Network,
            SdkError::Verification(_) => ErrorKind::Verification,
            SdkError::Crypto(_) => ErrorKind::Crypto,
        }
    }

    pub open spec fn spec_detail(&self) -> Seq<char> {
        match self {
            SdkError::InvalidState(d) => d@,
            SdkError::InvalidParameter(d) => d@,
            SdkError::InvalidOperation(d) => d@,
            SdkError::Storage(d) => d@,
            SdkError::Network(d) => d@,
            SdkError::Verification(d) => d@,
            SdkError::Crypto(d) => d@,
        }
    }

    /// The error's detail.
    pub fn detail(&self) -> (d: &String)
        ensures
            d@ == self.spec_detail(),
    {
        match self {
            SdkError::InvalidState(d) => d,
            SdkError::InvalidParameter(d) => d,
            SdkError::InvalidOperation(d) => d,
            SdkError::Storage(d) => d,
            SdkError::Network(d) => d,
            SdkError::Verification(d) => d,
            SdkError::Crypto(d) => d,
        }
    }
}

impl SdkError {
    /// The same error, of the same kind with the same detail.
    pub fn duplicate(&self) -> (r: SdkError)
        ensures
            r.spec_kind() == self.spec_kind(),
            r.spec_detail() == self.spec_detail(),
    {
        match self {
            SdkError::InvalidState(d) => SdkError::InvalidState(String::from_str(d.as_str())),
            SdkError::InvalidParameter(d) => SdkError::InvalidParameter(String::from_str(d.as_str())),
            SdkError::InvalidOperation(d) => SdkError::InvalidOperation(String::from_str(d.as_str())),
            SdkError::Storage(d) => SdkError::Storage(String::from_str(d.as_str())),
            SdkError::Network(d) => SdkError::Network(String::from_str(d.as_str())),
            SdkError::Verification(d) => SdkError::Verification(String::from_str(d.as_str())),
            SdkError::Crypto(d) => SdkError::Crypto(String::from_str(d.as_str())),
        }
    }
}

/// A `String` holding exactly `s`.
pub fn text(s: &str) -> (r: String)
    ensures
        r@ == s@,
{
    String::from_str(s)
}

} // verus!
