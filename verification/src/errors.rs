//! The error taxonomy: a closed set of operation-tagged error kinds wrapping
//! the provider's or the store's failure message, plus the two validation
//! failures of the inbound webhook, each mapped to a plain HTTP response.

use vstd::prelude::*;

verus! {

/// A response as the handlers hand it back: a status code and a body text.
pub struct ApiResponse {
    pub status: u16,
    pub body: String,
}

/// Why an inbound webhook request was rejected before any provider call.
#[derive(Clone, Copy, Debug, PartialEq, Eq, Structural)]
pub enum ValidationError {
    /// One of the four required transport headers is absent.
    MissingHeader,
    /// The body is not a well-formed notification document.
    MalformedBody,
}

impl ValidationError {
    /// Every validation failure is reported as a 400 with no body detail.
    pub fn into_response(self) -> (r: ApiResponse)
        ensures
            r.status == 400,
            r.body@ == Seq::<char>::empty(),
    {
        ApiResponse { status: 400, body: String::new() }
    }
}

/// A provider or persistence failure, tagged with the operation that failed
/// and carrying the underlying failure message verbatim.
#[derive(Clone, Debug, PartialEq, Eq)]
pub enum ApiError {
    SQL(String),
    CreateTopic(String),
    DeleteTopic(String),
    SubscribeToTopic(String),
    UnsubscribeFromTopic(String),
    PublishMessage(String),
}

impl ApiError {
    /// The wrapped failure message, whichever operation failed.
    pub open spec fn message(self) -> Seq<char> {
        match self {
            ApiError::SQL(m) => m@,
            ApiError::CreateTopic(m) => m@,
            ApiError::DeleteTopic(m) => m@,
            ApiError::SubscribeToTopic(m) => m@,
            ApiError::UnsubscribeFromTopic(m) => m@,
            ApiError::PublishMessage(m) => m@,
        }
    }

    /// Every provider or persistence failure is reported as a 500 whose body
    /// is the wrapped message, passed through verbatim.
    pub fn into_response(self) -> (r: ApiResponse)
        ensures
            r.status == 500,
            r.body@ == self.message(),
    {
        let body = match self {
            ApiError::SQL(m) => m,
            ApiError::CreateTopic(m) => m,
            ApiError::DeleteTopic(m) => m,
            ApiError::SubscribeToTopic(m) => m,
            ApiError::UnsubscribeFromTopic(m) => m,
            ApiError::PublishMessage(m) => m,
        };
        ApiResponse { status: 500, body }
    }
}

} // verus!
