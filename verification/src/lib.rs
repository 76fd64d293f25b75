//! A verified codec for the DNS message wire format (RFC 1035 section 4.1).
//!
//! The library decodes a raw datagram into a structured message — a fixed
//! 12-byte header, a question section and an answer section — and encodes
//! such a structure back into bytes.  Domain names are length-prefixed label
//! sequences; label compression pointers, EDNS0 and TCP framing are out of
//! scope.  Decoding a malformed datagram returns an error; it never panics.

pub mod answer;
pub mod error;
pub mod header;
pub mod message;
pub mod name;
pub mod question;

pub use answer::Answers;
pub use answer::ResourceRecord;
pub use error::DnsError;
pub use header::Header;
pub use message::DNS;
pub use question::Question;
