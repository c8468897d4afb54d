//! Review of Bicep infrastructure files against a best-practices document.
//!
//! The crate holds the logic of the review tool: building the chat requests
//! that ask a language model for best practices and reviews, parsing the
//! aggregated findings out of the model's JSON answer, filtering and
//! ordering findings by severity, and rendering the console report and the
//! pull-request comment.  The network calls themselves live outside the
//! library; every function here computes from plain values.

pub mod ado;
pub mod models;
pub mod prompts;
pub mod render;
pub mod report_json;
pub mod severity;
pub mod text;
pub mod urls;
