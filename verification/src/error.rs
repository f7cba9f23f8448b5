//! Error types for the FerrisKey SDK.
use vstd::prelude::*;

verus! {

/// An error of the `hpx` HTTP client, carried through unchanged.
#[verifier::external_type_specification]
#[verifier::external_body]
pub struct ExHttpError(hpx::Error);

/// Errors raised by a transport implementation.
#[derive(Debug)]
pub enum TransportError {
    /// The request method could not be converted into an HTTP verb.
    InvalidMethod {
        /// Method string provided by the SDK request.
        method: String,
    },
    /// The request could not be sent by the underlying HTTP client.
    Http(hpx::Error),
}

/// Errors raised by the SDK execution layer.
#[derive(Debug)]
pub enum SdkError {
    /// A documented API error payload was returned by the server.
    ApiResponse {
        /// Decoded JSON body when the documented response payload is JSON.
        body: Option<crate::document::JsonValue>,
        /// Operation identifier used for the request.
        operation_id: String,
        /// Schema name documented for the matched response payload.
        schema_name: Option<String>,
        /// HTTP status code returned by the server.
        status: u16,
    },
    /// A secured request was attempted without configured credentials.
    MissingAuth,
    /// A required path, query, or header parameter was not provided.
    MissingParameter {
        /// Parameter location in the HTTP request.
        location: &'static str,
        /// Parameter name.
        name: String,
        /// Operation identifier used for the request.
        operation_id: String,
    },
    /// A required request body was omitted.
    MissingRequestBody {
        /// Operation identifier used for the request.
        operation_id: String,
    },
    /// The response status did not match what the caller expected.
    UnexpectedStatus {
        /// Expected HTTP status code.
        expected: u16,
        /// Actual HTTP status code.
        actual: u16,
    },
    /// The response body did not match the expected format.
    Decode(serde_json::Error),
    /// The configured base URL or request path could not be resolved.
    InvalidUrl {
        /// Base URL configured on the SDK.
        base_url: String,
        /// Path provided by the SDK request.
        path: String,
    },
    /// The operation path template still contained unresolved placeholders after encoding.
    InvalidPathTemplate {
        /// Operation identifier used for the request.
        operation_id: String,
        /// Path template that could not be fully encoded.
        path_template: String,
    },
    /// No descriptor matched the requested operation ID.
    UnknownOperation {
        /// Operation identifier requested by the caller.
        operation_id: String,
    },
    /// The underlying transport failed.
    Transport(TransportError),
}

} // verus!
