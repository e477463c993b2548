use vstd::prelude::*;

verus! {

/// The closed set of failures a pinning operation can surface.
///
/// Every failure of the underlying transport or of response decoding is
/// mapped into exactly one of these kinds before it reaches the caller;
/// no raw transport error crosses the library boundary. Each kind other
/// than `InvalidCredentials` carries a diagnostic detail string.
#[derive(Debug, Clone, PartialEq, Eq)]
pub enum PinataError {
    InvalidCredentials,
    PinFileError(String),
    PinJsonError(String),
    UnpinError(String),
    NetworkError(String),
    SerializationError(String),
    DeserializationError(String),
}

impl PinataError {
    /// The diagnostic detail carried by the error; empty for `InvalidCredentials`.
    pub open spec fn detail(&self) -> Seq<char> {
        match self {
            PinataError::InvalidCredentials => Seq::<char>::empty(),
            PinataError::PinFileError(m) => m@,
            PinataError::PinJsonError(m) => m@,
            PinataError::UnpinError(m) => m@,
            PinataError::NetworkError(m) => m@,
            PinataError::SerializationError(m) => m@,
            PinataError::DeserializationError(m) => m@,
        }
    }

    /// The human-readable rendering of the error: a fixed phrase for the
    /// kind, followed by the diagnostic detail.
    pub open spec fn message_spec(&self) -> Seq<char> {
        match self {
            PinataError::InvalidCredentials => "Invalid API key or secret"@,
            PinataError::PinFileError(m) => "Failed to pin file: "@ + m@,
            PinataError::PinJsonError(m) => "Failed to pin JSON: "@ + m@,
            PinataError::UnpinError(m) => "Failed to unpin: "@ + m@,
            PinataError::NetworkError(m) => "Network error: "@ + m@,
            PinataError::SerializationError(m) => "Serialization error: "@ + m@,
            PinataError::DeserializationError(m) => "Deserialization error: "@ + m@,
        }
    }

    /// Renders the error as its message string.
    pub fn message(&self) -> (m: String)
        ensures
            m@ == self.message_spec(),
    {
        match self {
            PinataError::InvalidCredentials => String::from_str("Invalid API key or secret"),
            PinataError::PinFileError(d) => String::from_str("Failed to pin file: ").concat(d.as_str()),
            PinataError::PinJsonError(d) => String::from_str("Failed to pin JSON: ").concat(d.as_str()),
            PinataError::UnpinError(d) => String::from_str("Failed to unpin: ").concat(d.as_str()),
            PinataError::NetworkError(d) => String::from_str("Network error: ").concat(d.as_str()),
            PinataError::SerializationError(d) => String::from_str("Serialization error: ").concat(d.as_str()),
            PinataError::DeserializationError(d) => String::from_str("Deserialization error: ").concat(d.as_str()),
        }
    }

    /// Wraps a transport-level failure (connection, TLS, host fetch
    /// rejection) in the network category.
    pub fn network(detail: &str) -> (r: PinataError)
        ensures
            r matches PinataError::NetworkError(m) && m@ == detail@,
    {
        PinataError::NetworkError(String::from_str(detail))
    }

    /// Wraps a local file-read failure in the pin-file category, so that an
    /// unreadable path is reported as a pin-file error and never as a
    /// network error.
    pub fn file_read(detail: &str) -> (r: PinataError)
        ensures
            r matches PinataError::PinFileError(m) && m@ == detail@,
    {
        PinataError::PinFileError(String::from_str(detail))
    }

    /// Wraps a failure to serialize caller-supplied data in the
    /// serialization category; raised before any request is issued.
    pub fn serialization(detail: &str) -> (r: PinataError)
        ensures
            r matches PinataError::SerializationError(m) && m@ == detail@,
    {
        PinataError::SerializationError(String::from_str(detail))
    }
}

} // verus!
