//! The engine's error type. Each variant carries the human-readable detail
//! of the failure; [`ApitapError::message`] renders the full text.

use vstd::prelude::*;
use crate::strutil::{dec_chars, u64_to_string};

verus! {

/// Error raised by any stage of the engine.
#[derive(Debug, Clone)]
pub enum ApitapError {
    /// Configuration problems: missing source, target or table, or an
    /// environment variable that a URL or header refers to but that is
    /// not set.
    ConfigError(String),
    /// The source's pagination variant is absent or unsupported.
    PaginationError(String),
    /// Failures while persisting rows to the sink.
    WriterError(String),
    /// Failures in the run itself: template functions, schema inference,
    /// missing destination table.
    PipelineError(String),
    /// A sink kind the engine does not support.
    UnsupportedSink(String),
    /// Merge mode was requested without a usable primary key.
    MergeError(String),
    /// A value did not fit the column type it was written to.
    DataTypeError(String),
    /// A poisoned lock around shared render state.
    PoisonError(String),
    /// The source URL did not parse.
    UrlParseError(String),
    /// Transport-level failures: connection errors and timeouts.
    NetworkError(String),
    /// A non-retryable HTTP status.
    HttpStatusError(u16, String),
}

impl ApitapError {
    /// The full message: a fixed prefix for the variant, then the detail.
    pub open spec fn message_spec(&self) -> Seq<char> {
        match self {
            ApitapError::ConfigError(s) => "Configuration error: "@ + s@,
            ApitapError::PaginationError(s) => "Pagination error: "@ + s@,
            ApitapError::WriterError(s) => "Writer error: "@ + s@,
            ApitapError::PipelineError(s) => "Pipeline error: "@ + s@,
            ApitapError::UnsupportedSink(s) => "Unsupported sink: "@ + s@,
            ApitapError::MergeError(s) => "Merge Error: "@ + s@,
            ApitapError::DataTypeError(s) => "Data Type Error: "@ + s@,
            ApitapError::PoisonError(s) => "Poison Error: "@ + s@,
            ApitapError::UrlParseError(s) => "URL parse error: "@ + s@,
            ApitapError::NetworkError(s) => "HTTP request failed: "@ + s@,
            ApitapError::HttpStatusError(code, s) => "HTTP status error: "@ + dec_chars(
                *code as nat,
            ) + ": "@ + s@,
        }
    }

    /// Render the error as one line of text.
    pub fn message(&self) -> (r: String)
        ensures
            r@ == self.message_spec(),
    {
        match self {
            ApitapError::ConfigError(s) => String::from_str("Configuration error: ").concat(
                s.as_str(),
            ),
            ApitapError::PaginationError(s) => String::from_str("Pagination error: ").concat(
                s.as_str(),
            ),
            ApitapError::WriterError(s) => String::from_str("Writer error: ").concat(s.as_str()),
            ApitapError::PipelineError(s) => String::from_str("Pipeline error: ").concat(
                s.as_str(),
            ),
            ApitapError::UnsupportedSink(s) => String::from_str("Unsupported sink: ").concat(
                s.as_str(),
            ),
            ApitapError::MergeError(s) => String::from_str("Merge Error: ").concat(s.as_str()),
            ApitapError::DataTypeError(s) => String::from_str("Data Type Error: ").concat(
                s.as_str(),
            ),
            ApitapError::PoisonError(s) => String::from_str("Poison Error: ").concat(s.as_str()),
            ApitapError::UrlParseError(s) => String::from_str("URL parse error: ").concat(
                s.as_str(),
            ),
            ApitapError::NetworkError(s) => String::from_str("HTTP request failed: ").concat(
                s.as_str(),
            ),
            ApitapError::HttpStatusError(code, s) => {
                let r = String::from_str("HTTP status error: ").concat(
                    u64_to_string(*code as u64).as_str(),
                );
                let r = r.concat(": ");
                r.concat(s.as_str())
            },
        }
    }
}

/// Convenience result type used across the engine.
pub type ApitapResult<T> = Result<T, ApitapError>;

} // verus!
