//! A verified codec for the DNS wire format (RFC 1035).
//!
//! A message is a 12-byte header followed by question and resource-record
//! sections.  The library decodes and encodes that format over a cursor
//! buffer: a fixed-capacity byte array with a read/write position that
//! exposes bounds-checked primitive accessors and domain-name encoding and
//! decoding, including the backward-pointer compression scheme.  All
//! parsing is defended against untrusted input: every access is bounds
//! checked and pointer chains in compressed names are cut off rather than
//! followed forever.

pub mod buffer;
pub mod errors;
pub mod header;
pub mod record;
pub mod wire;

pub use buffer::PacketBuffer;
pub use errors::Error;
pub use errors::ResultCode;
pub use header::Header;
pub use record::Ipv4Addr;
pub use record::Record;
pub use record::RecordPreamble;
pub use record::RecordType;
