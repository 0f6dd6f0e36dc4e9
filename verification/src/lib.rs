//! Client-side codec for the kdb+ binary IPC protocol: the message envelope,
//! the tagged value model, the recursive encoder/decoder pair, and the
//! request/acknowledgement session rules, all verified down to the byte layout.
pub mod intbytes;
pub mod ktype;
pub mod kobj;
pub mod wire;
pub mod header;
pub mod kdb;
pub mod laws;

pub use header::Endian;
pub use header::Header;
pub use kdb::Kdb;
pub use kobj::KErr;
pub use kobj::KObj;
pub use ktype::KType;
