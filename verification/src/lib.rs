//! Flattening of HTTP request bodies into a key/value field store.
//!
//! A body is JSON, XML, a multipart form or a URL-encoded form. Each of them
//! is turned into fields of a [`fields::RequestField`], whose `add` joins the
//! values that share a key.

pub mod fields;
pub mod text;
pub mod json;
pub mod xml;
pub mod forms;
pub mod parts;
pub mod body;
