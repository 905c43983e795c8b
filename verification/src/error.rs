//! Plugin error type.

use vstd::prelude::*;

verus! {

/// `serde_json::Error`, carried unchanged inside [`PluginError::SerdeJson`].
#[verifier::external_type_specification]
#[verifier::external_body]
pub struct ExSerdeJsonError(serde_json::Error);

/// Errors raised by the Gallery plugin.
#[derive(Debug)]
pub enum PluginError {
    /// A provider response could not be read as the expected JSON.
    ParseJson(String),
    /// A JSON (de)serialisation failure.
    SerdeJson(serde_json::Error),
    /// A provider API answered with a non-success status.
    HttpStatus { status: u16, message: String },
    /// The host's response to a host-function call was malformed.
    HostResponse(String),
    /// The URL is not a recognised gallery resource.
    UnsupportedUrl(String),
    /// The minimum resolution setting is not of the form `WxH`.
    InvalidMinResolution(String),
}

} // verus!
