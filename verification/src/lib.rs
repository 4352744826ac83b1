//! Client-side builder for Interface5 batch ingestion requests.
//!
//! A caller assembles a payload (`I5Reqeust`) out of named documents, each
//! holding key/value fields and base64-encoded file attachments, validates the
//! payload's structural invariants, and serializes the validated payload to
//! its JSON wire format. Endpoint URLs are assembled by `I5RequestUrl`.

pub mod continuity;
pub mod decimal;
pub mod encoding;
pub mod i5_error;
pub mod i5_request;
pub mod i5_request_url;
pub mod json_text;
pub mod wire_parse;

pub use continuity::is_continuous;
pub use decimal::i32_to_string;
pub use i5_error::I5RequestError;
pub use i5_request::{Document, Field, File, I5Reqeust, ValidatedI5Request};
pub use i5_request_url::I5RequestUrl;
