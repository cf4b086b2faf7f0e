//! The wire side of a game-server protocol endpoint: the variable-length
//! integer codec, the record format built on it, and the per-connection
//! framing and dispatch rules.

pub mod bits;
pub mod connection;
pub mod de;
pub mod error;
pub mod format;
pub mod packets;
pub mod record;
pub mod ser;
pub mod text;
pub mod types;
pub mod varint;

pub use de::Deserializer;
pub use error::Error;
pub use record::{from_slice, from_vec, to_vec, Wire};
pub use ser::Serializer;
