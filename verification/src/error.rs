//! What can go wrong between a request and its stream.

use crate::text::{decimal, decimal_text, joined};
use vstd::prelude::*;
use vstd::string::*;

verus! {

/// Why a request or a model discovery failed.
#[derive(Debug, PartialEq)]
pub enum ProviderError {
    /// No API key is configured.
    ApiKeyMissing,
    /// More text than the line buffer may hold arrived without being consumed.
    LineBufferExceeded,
    /// The model catalogue was answered with a status that is no success.
    ModelsStatus(u16),
    /// The model catalogue names no usable model.
    NoModels,
    /// The SDK failed: a request could not be sent, an answer not be read, or an
    /// event not be published. The text is that of the SDK's own error.
    Sdk(String),
    /// The completion request was answered with a status other than 200.
    Api { status: u16, body: String },
}

/// The message of an error.
pub open spec fn error_message(error: ProviderError) -> Seq<char> {
    match error {
        ProviderError::ApiKeyMissing => "api_key not configured"@,
        ProviderError::LineBufferExceeded => "SSE line buffer exceeded maximum size"@,
        ProviderError::ModelsStatus(status) => "/v1/models returned status "@ + decimal(
            status as nat,
        ),
        ProviderError::NoModels => "/v1/models returned no models"@,
        ProviderError::Sdk(text) => text@,
        ProviderError::Api { status, body } => "API error ("@ + decimal(status as nat) + "): "@
            + body@,
    }
}

/// What is reported of an error: the SDK's own text where the SDK failed, else the
/// message behind the words that the SDK puts before it.
pub open spec fn error_report(error: ProviderError) -> Seq<char> {
    match error {
        ProviderError::Sdk(text) => text@,
        _ => "API logic error: "@ + error_message(error),
    }
}

/// `ToString` of `astrid_sdk::SysError::ApiError`: fixed words, then the message.
#[verifier::external_body]
fn api_error_text(message: String) -> (text: String)
    ensures
        text@ == "API logic error: "@ + message@,
{
    astrid_sdk::SysError::ApiError(message).to_string()
}

impl ProviderError {
    /// What is reported of the error.
    pub fn report(&self) -> (text: String)
        ensures
            text@ == error_report(*self),
    {
        match self {
            ProviderError::Sdk(text) => text.clone(),
            _ => api_error_text(self.message()),
        }
    }

    /// The message of the error.
    pub fn message(&self) -> (text: String)
        ensures
            text@ == error_message(*self),
    {
        match self {
            ProviderError::ApiKeyMissing => "api_key not configured".to_owned(),
            ProviderError::LineBufferExceeded => "SSE line buffer exceeded maximum size".to_owned(),
            ProviderError::ModelsStatus(status) => joined(
                "/v1/models returned status ",
                decimal_text(*status).as_str(),
            ),
            ProviderError::NoModels => "/v1/models returned no models".to_owned(),
            ProviderError::Sdk(text) => text.clone(),
            ProviderError::Api { status, body } => {
                let mut text: String = joined("API error (", decimal_text(*status).as_str());
                text.append("): ");
                text.append(body.as_str());
                text
            },
        }
    }
}

} // verus!
