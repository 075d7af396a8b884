//! The wire-level message vocabulary: peer and document identifiers, the
//! application `Sync` payload, and the `Message` sum type exchanged on a
//! connection.

use vstd::prelude::*;

verus! {

/// Opaque string identifier naming one participant ("repo") in the
/// synchronization network. Equality is string equality.
#[derive(Clone, Debug, PartialEq, Eq)]
pub struct RepoId(pub String);

/// Opaque string identifier naming one synchronized document.
#[derive(Clone, Debug, PartialEq, Eq)]
pub struct DocumentId(pub String);

impl View for RepoId {
    type V = Seq<char>;

    open spec fn view(&self) -> Seq<char> {
        self.0@
    }
}

impl View for DocumentId {
    type V = Seq<char>;

    open spec fn view(&self) -> Seq<char> {
        self.0@
    }
}

/// Mathematical model of a [`RepoMessage`]: every field reduced to a plain
/// sequence.
pub struct SyncV {
    pub from_repo_id: Seq<char>,
    pub to_repo_id: Seq<char>,
    pub document_id: Seq<char>,
    pub message: Seq<u8>,
}

/// Application traffic carried over an established connection. The payload is
/// opaque to this layer.
#[derive(Clone, Debug, PartialEq, Eq)]
pub enum RepoMessage {
    Sync {
        from_repo_id: RepoId,
        to_repo_id: RepoId,
        document_id: DocumentId,
        message: Vec<u8>,
    },
}

impl View for RepoMessage {
    type V = SyncV;

    open spec fn view(&self) -> SyncV {
        match self {
            RepoMessage::Sync { from_repo_id, to_repo_id, document_id, message } => SyncV {
                from_repo_id: from_repo_id@,
                to_repo_id: to_repo_id@,
                document_id: document_id@,
                message: message@,
            },
        }
    }
}

/// Mathematical model of a [`Message`].
pub enum MessageV {
    Join(Seq<char>),
    Joined(Seq<char>),
    Repo(SyncV),
}

/// One wire-level message: the two handshake greetings and the application
/// payload carrier.
#[derive(Clone, Debug, PartialEq, Eq)]
pub enum Message {
    /// "I am entering this connection as the named peer"; must be first on a
    /// connection, sent exactly once by the outgoing side.
    Join(RepoId),
    /// "I acknowledge, and I am the named peer"; the incoming side's reply.
    Joined(RepoId),
    /// Opaque application traffic; only valid after the handshake completes.
    Repo(RepoMessage),
}

impl View for Message {
    type V = MessageV;

    open spec fn view(&self) -> MessageV {
        match self {
            Message::Join(id) => MessageV::Join(id@),
            Message::Joined(id) => MessageV::Joined(id@),
            Message::Repo(m) => MessageV::Repo(m@),
        }
    }
}

} // verus!
