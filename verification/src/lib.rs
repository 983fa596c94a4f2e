//! Decoder for legacy BSD-style syslog lines (the RFC 3164 wire format) into
//! a structured record: severity, facility, optional timestamp, hostname,
//! process identifier and tag, and the free-text message body.
//!
//! The decoder is a cursor-threaded recursive-descent parser: each field
//! parser consumes a prefix of the remaining input and hands back the rest,
//! or fails with a typed error. A line either fully decodes or is fully
//! rejected; no partial records are produced.

pub mod clock;
pub mod facility;
pub mod message;
pub mod parser;
pub mod severity;

pub use message::ProcIdType;
pub use message::SyslogMessage;
pub use parser::ParseErr;
pub use parser::parse_message;
pub use parser::parse_message_with_year;
