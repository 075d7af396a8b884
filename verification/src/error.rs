//! The error taxonomy of the wire layer: transport, decode and protocol
//! failures, all fatal to the connection that raised them.

use vstd::prelude::*;

verus! {

/// `std::io::Error`, carried opaquely inside [`CodecError::Io`]; the transport
/// half in `app` constructs it, this layer only passes it along.
#[verifier::external_type_specification]
#[verifier::external_body]
pub struct ExIoError(std::io::Error);

/// A protocol-level failure: a structurally valid message arrived in an
/// invalid position, or the stream ended where a handshake message was owed.
#[derive(Clone, Copy, Debug, PartialEq, Eq, Structural)]
pub enum NetworkError {
    Error,
}

/// Why decoding one frame body failed.
#[derive(Clone, Debug, PartialEq, Eq)]
pub enum DecodeError {
    /// The body's top-level map declared no definite length.
    MissingLen,
    /// The body is not structurally well-formed CBOR; carries a description.
    Cbor(String),
    MissingType,
    MissingChannelId,
    MissingSenderId,
    MissingTargetId,
    MissingDocumentId,
    MissingData,
    MissingBroadcast,
    /// The `type` field held a string this layer does not know; carries it.
    UnknownType(String),
}

/// Mathematical model of a [`DecodeError`]. The free-form description of a
/// structural failure is not part of the model.
pub enum DecodeErrorV {
    MissingLen,
    Cbor,
    MissingType,
    MissingChannelId,
    MissingSenderId,
    MissingTargetId,
    MissingDocumentId,
    MissingData,
    MissingBroadcast,
    UnknownType(Seq<char>),
}

impl View for DecodeError {
    type V = DecodeErrorV;

    open spec fn view(&self) -> DecodeErrorV {
        match self {
            DecodeError::MissingLen => DecodeErrorV::MissingLen,
            DecodeError::Cbor(_) => DecodeErrorV::Cbor,
            DecodeError::MissingType => DecodeErrorV::MissingType,
            DecodeError::MissingChannelId => DecodeErrorV::MissingChannelId,
            DecodeError::MissingSenderId => DecodeErrorV::MissingSenderId,
            DecodeError::MissingTargetId => DecodeErrorV::MissingTargetId,
            DecodeError::MissingDocumentId => DecodeErrorV::MissingDocumentId,
            DecodeError::MissingData => DecodeErrorV::MissingData,
            DecodeError::MissingBroadcast => DecodeErrorV::MissingBroadcast,
            DecodeError::UnknownType(s) => DecodeErrorV::UnknownType(s@),
        }
    }
}

/// A connection-level failure surfaced by the framing codec: a transport
/// fault, a frame that would not decode, or a protocol violation.
#[derive(Debug)]
pub enum CodecError {
    Io(std::io::Error),
    Decode(DecodeError),
    Network(NetworkError),
}

/// Mathematical model of a [`CodecError`]; the transport error value is
/// opaque.
pub enum CodecErrorV {
    Io,
    Decode(DecodeErrorV),
    Network,
}

impl View for CodecError {
    type V = CodecErrorV;

    open spec fn view(&self) -> CodecErrorV {
        match self {
            CodecError::Io(_) => CodecErrorV::Io,
            CodecError::Decode(e) => CodecErrorV::Decode(e@),
            CodecError::Network(_) => CodecErrorV::Network,
        }
    }
}

impl From<CodecError> for NetworkError {
    fn from(_err: CodecError) -> (r: NetworkError) {
        NetworkError::Error
    }
}

impl vstd::std_specs::convert::FromSpecImpl<CodecError> for NetworkError {
    open spec fn obeys_from_spec() -> bool {
        true
    }

    open spec fn from_spec(_err: CodecError) -> NetworkError {
        NetworkError::Error
    }
}

impl From<DecodeError> for CodecError {
    fn from(err: DecodeError) -> (r: CodecError) {
        CodecError::Decode(err)
    }
}

impl vstd::std_specs::convert::FromSpecImpl<DecodeError> for CodecError {
    open spec fn obeys_from_spec() -> bool {
        true
    }

    open spec fn from_spec(err: DecodeError) -> CodecError {
        CodecError::Decode(err)
    }
}

impl From<std::io::Error> for CodecError {
    fn from(err: std::io::Error) -> (r: CodecError) {
        CodecError::Io(err)
    }
}

impl vstd::std_specs::convert::FromSpecImpl<std::io::Error> for CodecError {
    open spec fn obeys_from_spec() -> bool {
        true
    }

    open spec fn from_spec(err: std::io::Error) -> CodecError {
        CodecError::Io(err)
    }
}

impl From<NetworkError> for CodecError {
    fn from(err: NetworkError) -> (r: CodecError) {
        CodecError::Network(err)
    }
}

impl vstd::std_specs::convert::FromSpecImpl<NetworkError> for CodecError {
    open spec fn obeys_from_spec() -> bool {
        true
    }

    open spec fn from_spec(err: NetworkError) -> CodecError {
        CodecError::Network(err)
    }
}

impl DecodeError {
    /// A human-readable description, in place of a `Display` impl.
    pub fn describe(&self) -> (r: String) {
        match self {
            DecodeError::MissingLen => "missing len".to_string(),
            DecodeError::Cbor(s) => s.clone(),
            DecodeError::MissingType => "no type field".to_string(),
            DecodeError::MissingChannelId => "no channel_id field".to_string(),
            DecodeError::MissingSenderId => "no sender_id field".to_string(),
            DecodeError::MissingTargetId => "no target_id field".to_string(),
            DecodeError::MissingDocumentId => "no document_id field".to_string(),
            DecodeError::MissingData => "no data field".to_string(),
            DecodeError::MissingBroadcast => "no broadcast field".to_string(),
            DecodeError::UnknownType(s) => s.clone(),
        }
    }
}

} // verus!
