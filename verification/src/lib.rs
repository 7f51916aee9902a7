//! Batch import of mail messages from client-supplied blobs.
//!
//! One method call creates several messages at once, each named by a
//! client-chosen creation id.  The crate covers the whole discipline around
//! that call: parsing the request from a token stream with
//! forward-compatible key dispatch, fields that may carry either a literal
//! value or a reference into an earlier item's result, an
//! insertion-order-preserving map used for the request items and both
//! response tables, and a batch executor that guards on an optimistic
//! state token, isolates per-item failures, and assembles the response.

pub mod dispatch;
pub mod executor;
pub mod ordmap;
pub mod request;
pub mod response;
pub mod tokens;
pub mod types;
