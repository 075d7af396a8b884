//! Peer-connection bootstrap and wire layer for a document-synchronization
//! service: a length-prefixed framing codec over a CBOR message body, and a
//! direction-dependent handshake that establishes mutual peer identity before
//! application traffic flows.

pub mod cbor;
pub mod error;
pub mod frame;
pub mod handshake;
pub mod message;
pub mod storage;
pub mod wire;

pub use error::{CodecError, DecodeError, NetworkError};
pub use frame::Codec;
pub use handshake::ConnDirection;
pub use message::{DocumentId, Message, RepoId, RepoMessage};
