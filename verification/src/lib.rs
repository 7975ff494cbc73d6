//! A client library for FlySoar.ai's flight search stream: request
//! validation, the server-sent-event decoder, offer ordering and summaries.

pub mod text;
pub mod sse;
pub mod models;
pub mod ordering;
pub mod duration;
pub mod offers;
pub mod stream;
pub mod dates;
pub mod validate;
pub mod headers;
pub mod summary;
pub mod search;
