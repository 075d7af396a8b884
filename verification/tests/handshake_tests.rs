//! The handshake decisions, the channel narrowing, and the independence of
//! simultaneous connections.

use repo_wire::handshake::{
    handshake_greeting, handshake_receive, narrow_incoming, widen_outgoing, ConnDirection,
};
use repo_wire::{CodecError, DocumentId, Message, NetworkError, RepoId, RepoMessage};

fn id(s: &str) -> RepoId {
    RepoId(s.to_string())
}

fn sync_msg() -> RepoMessage {
    RepoMessage::Sync {
        from_repo_id: id("a"),
        to_repo_id: id("b"),
        document_id: DocumentId("d".to_string()),
        message: vec![1, 2, 3],
    }
}

#[test]
fn incoming_handshake_success() {
    let local = id("peer-a");
    assert_eq!(handshake_greeting(&ConnDirection::Incoming, &local), None);
    let first = Some(Ok(Message::Join(id("peer-b"))));
    let (remote, reply) = handshake_receive(&ConnDirection::Incoming, &local, first).unwrap();
    assert_eq!(remote, id("peer-b"));
    assert_eq!(reply, Some(Message::Joined(id("peer-a"))));
}

#[test]
fn outgoing_handshake_success() {
    let local = id("peer-a");
    assert_eq!(
        handshake_greeting(&ConnDirection::Outgoing, &local),
        Some(Message::Join(id("peer-a")))
    );
    let first = Some(Ok(Message::Joined(id("peer-b"))));
    let (remote, reply) = handshake_receive(&ConnDirection::Outgoing, &local, first).unwrap();
    assert_eq!(remote, id("peer-b"));
    assert_eq!(reply, None);
}

#[test]
fn incoming_rejects_sync_first() {
    let local = id("peer-a");
    let first = Some(Ok(Message::Repo(sync_msg())));
    assert_eq!(
        handshake_receive(&ConnDirection::Incoming, &local, first),
        Err(NetworkError::Error)
    );
}

#[test]
fn incoming_rejects_end_of_stream() {
    let local = id("peer-a");
    assert_eq!(
        handshake_receive(&ConnDirection::Incoming, &local, None),
        Err(NetworkError::Error)
    );
}

#[test]
fn incoming_rejects_joined_first() {
    let local = id("peer-a");
    let first = Some(Ok(Message::Joined(id("peer-b"))));
    assert_eq!(
        handshake_receive(&ConnDirection::Incoming, &local, first),
        Err(NetworkError::Error)
    );
}

#[test]
fn outgoing_rejects_join_first() {
    let local = id("peer-a");
    let first = Some(Ok(Message::Join(id("peer-b"))));
    assert_eq!(
        handshake_receive(&ConnDirection::Outgoing, &local, first),
        Err(NetworkError::Error)
    );
}

#[test]
fn handshake_rejects_decode_error() {
    let local = id("peer-a");
    let first = Some(Err(CodecError::Network(NetworkError::Error)));
    assert_eq!(
        handshake_receive(&ConnDirection::Incoming, &local, first),
        Err(NetworkError::Error)
    );
}

#[test]
fn narrowing_passes_application_messages() {
    assert_eq!(narrow_incoming(Ok(Message::Repo(sync_msg()))), Ok(sync_msg()));
}

#[test]
fn narrowing_turns_stray_join_into_error() {
    assert_eq!(
        narrow_incoming(Ok(Message::Join(id("late")))),
        Err(NetworkError::Error)
    );
    assert_eq!(
        narrow_incoming(Ok(Message::Joined(id("late")))),
        Err(NetworkError::Error)
    );
    assert_eq!(
        narrow_incoming(Err(CodecError::Network(NetworkError::Error))),
        Err(NetworkError::Error)
    );
}

#[test]
fn widening_wraps_application_messages() {
    assert_eq!(
        widen_outgoing(Ok(sync_msg())),
        Ok(Message::Repo(sync_msg()))
    );
    assert_eq!(
        widen_outgoing(Err(NetworkError::Error)),
        Err(NetworkError::Error)
    );
}

#[test]
fn stalled_connection_does_not_block_another() {
    // Two connections set up side by side: the first never hears anything,
    // the second completes its handshake regardless.
    let local = id("peer-a");
    let stalled_greeting = handshake_greeting(&ConnDirection::Incoming, &local);
    assert_eq!(stalled_greeting, None);
    // no message ever arrives on the first connection; nothing is decided
    let first = Some(Ok(Message::Join(id("peer-b"))));
    let (remote, reply) = handshake_receive(&ConnDirection::Incoming, &local, first).unwrap();
    assert_eq!(remote, id("peer-b"));
    assert_eq!(reply, Some(Message::Joined(id("peer-a"))));
    // the stalled connection can still fail independently afterwards
    assert_eq!(
        handshake_receive(&ConnDirection::Incoming, &local, None),
        Err(NetworkError::Error)
    );
}
