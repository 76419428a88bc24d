//! A development mail sink: an SMTP receiver that keeps every message it is
//! given, and the repository and notification logic behind its HTTP view.

pub mod text;
pub mod clock;
pub mod ident;
pub mod mail;
pub mod smtp;
pub mod broker;
pub mod json;
pub mod sse;
pub mod encoding;
pub mod http;
