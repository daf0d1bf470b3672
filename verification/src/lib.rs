//! A verified codec for DNS messages: encoding a query (header + question)
//! into wire bytes, and decoding a response (header, questions, resource
//! records) from wire bytes, including domain-name decompression via
//! backward pointers.

pub mod errors;
pub mod header;
pub mod names;
pub mod question;
pub mod record;
pub mod request;
pub mod wire;
