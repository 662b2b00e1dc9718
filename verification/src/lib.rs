//! The verified core of a node of a proof-of-stake network.
//!
//! The larger part is the wire codec for the messages that two peers
//! exchange. A message is a variable-length discriminant followed by a
//! payload. The payload is made of fixed-width values, nested protocol objects
//! that bring their own compact encoding, and count-prefixed collections whose
//! count is held against a configured maximum before anything is read.
//!
//! Every executable function of the codec is specified against a mathematical
//! model of the encoding (`spec_encode`, `spec_decode`), and the laws that tie
//! the two directions together are proved for every implementor of
//! [`compact::WireFormat`]: what is written is read back, and a buffer cut
//! short is reported as short.
//!
//! Beside the codec stand the decisions of the wallet and the speculative
//! state of the rolls, both over lists of entries under distinct keys.

pub mod compact;
pub mod context;
pub mod error;
pub mod fixed;
pub mod ip;
pub mod keyed;
pub mod message_laws;
pub mod messages;
pub mod operations;
pub mod registry;
pub mod rolls;
pub mod sequence;
pub mod units;
pub mod varint;
pub mod version;
pub mod wallet;

pub use context::SerializationContext;
pub use error::{Field, ProtocolError};
pub use messages::Message;
