//! Backend logic of a small desktop application: a greeting formatter and the
//! decisions of a lister that asks a local model-serving daemon which models
//! are installed.
//!
//! The transport (the HTTP request and the decoding of the JSON body) is the
//! caller's business. This library decides what each outcome of the transport
//! means and turns a decoded payload into the sorted, duplicate-free list of
//! model names.

pub mod error;
pub mod greeting;
pub mod lister;
pub mod names;
pub mod order;
pub mod status;

pub use error::ListError;
pub use greeting::greet;
pub use lister::check_response;
pub use lister::collect_names;
pub use lister::ModelListResponse;
pub use lister::ModelTag;
pub use lister::TAGS_ENDPOINT;
pub use names::normalize_names;
pub use status::HttpStatus;
