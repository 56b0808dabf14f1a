//! Core of a browser-facing gateway in front of an object store.
//!
//! The gateway turns browser requests (cookie credentials, readable object
//! keys) into backend calls (bearer tokens, escaped paths) and relays the
//! answers. This crate holds the rules of that translation as verified
//! functions over plain values; the transport around them is left to the
//! caller.
//!
//! - [`key`]: object keys as backend paths, and back.
//! - [`headers`]: the allow-lists that decide which headers cross.
//! - [`auth`]: from the credential cookie to the `Authorization` header.
//! - [`request`]: the backend call for an inbound request.
//! - [`response`]: the response for the outcome of a backend call.
//! - [`pipeline`]: the stages of one request, as a state machine.
//! - [`session`]: what the login flow hands to the browser.
//! - [`consts`]: the configuration and the backend's fixed paths.
//! - [`operation`]: the operations and what each one sends.
//! - [`search`], [`text`]: small tools for sequences and for ASCII text.

pub mod auth;
pub mod consts;
pub mod headers;
pub mod key;
pub mod operation;
pub mod pipeline;
pub mod request;
pub mod response;
pub mod search;
pub mod session;
pub mod text;
