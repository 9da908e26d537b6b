//! The error taxonomy of the library, and the retry classification over it.
//!
//! Every failure a caller can see is one of these variants. `TransportError`
//! and `ApiError` describe failures of the two remote collaborators (the
//! document database and the embedding provider); the surrounding application
//! maps its transport library's errors onto them before handing them to the
//! retry logic. The remaining variants are local: construction, the local
//! index, and the persisted store file.

use vstd::prelude::*;

verus! {

/// Why a constructor rejected its configuration.
#[derive(Clone, Copy, Debug, PartialEq, Eq, Structural)]
pub enum ConfigFault {
    /// The base URL could not be parsed as an absolute URL.
    UnparsableUrl,
    /// The base URL parsed, but its scheme is neither `http` nor `https`.
    UnsupportedScheme,
    /// A store was asked for with dimension zero.
    ZeroDimension,
}

/// Why decoding a persisted store file failed.
#[derive(Clone, Copy, Debug, PartialEq, Eq, Structural)]
pub enum PersistenceFault {
    /// The stream ended before the structure it promised was complete.
    Truncated,
    /// The stream does not begin with the store file header.
    BadHeader,
    /// A length field does not fit the platform's address range.
    OversizedLength,
    /// A text field is not valid UTF-8.
    BadText,
    /// An embedding component lies outside the representable range.
    ComponentOutOfRange,
    /// The declared dimension is zero or above the supported maximum.
    InvalidDimension,
    /// The stream continues past the end of the encoded store.
    TrailingBytes,
}

/// A failure of one operation of the library.
///
/// `TransportError` and `ApiError` are the two classes the retry logic may
/// re-attempt; everything else is fatal on first occurrence.
#[derive(Clone, Copy, Debug, PartialEq, Eq, Structural)]
pub enum StoreError {
    /// Invalid URL or dimension at construction.
    ConfigError { fault: ConfigFault },
    /// A network-level failure: `timeout` for an elapsed deadline, `connect`
    /// for a failed connection establishment.
    TransportError { timeout: bool, connect: bool },
    /// A response with a non-success status code.
    ApiError { status: u16 },
    /// A vector's length disagrees with the store's declared dimension.
    DimensionMismatch { expected: usize, found: usize },
    /// The persisted store stream is absent, unreadable or structurally invalid.
    PersistenceError { cause: PersistenceFault },
}

/// The retry classification of a failure.
#[derive(Clone, Copy, Debug, PartialEq, Eq, Structural)]
pub enum ErrorClass {
    /// Transient: eligible for automatic re-attempt.
    Retryable,
    /// Permanent: surfaced to the caller on first occurrence.
    Fatal,
}

/// A server-side status code: one of HTTP 500, 502, 503 and 504.
pub open spec fn spec_retryable_status(status: u16) -> bool {
    status == 500 || status == 502 || status == 503 || status == 504
}

/// The classification rule: network-level timeouts and connection failures,
/// and server responses carrying HTTP 500/502/503/504, are retryable; every
/// other failure is fatal.
pub open spec fn spec_classify(e: StoreError) -> ErrorClass {
    match e {
        StoreError::TransportError { timeout, connect } => if timeout || connect {
            ErrorClass::Retryable
        } else {
            ErrorClass::Fatal
        },
        StoreError::ApiError { status } => if spec_retryable_status(status) {
            ErrorClass::Retryable
        } else {
            ErrorClass::Fatal
        },
        _ => ErrorClass::Fatal,
    }
}

impl StoreError {
    /// Classify this failure as retryable or fatal.
    pub fn classify(&self) -> (c: ErrorClass)
        ensures
            c == spec_classify(*self),
    {
        match *self {
            StoreError::TransportError { timeout, connect } => if timeout || connect {
                ErrorClass::Retryable
            } else {
                ErrorClass::Fatal
            },
            StoreError::ApiError { status } => if status == 500 || status == 502 || status == 503
                || status == 504 {
                ErrorClass::Retryable
            } else {
                ErrorClass::Fatal
            },
            _ => ErrorClass::Fatal,
        }
    }

    /// Whether this failure is eligible for automatic re-attempt.
    pub fn is_retryable(&self) -> (r: bool)
        ensures
            r == (spec_classify(*self) == ErrorClass::Retryable),
    {
        match self.classify() {
            ErrorClass::Retryable => true,
            ErrorClass::Fatal => false,
        }
    }
}

} // verus!
