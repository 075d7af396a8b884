//! The handshake decisions and the channel-narrowing adapter. A connection
//! starts `AwaitingHandshake`; depending on its direction one side opens with
//! `Join` and the other answers `Joined`; only after that exchange is the
//! connection `Established` and application traffic allowed. The driving loop
//! (transport, waiting, registration) lives outside; everything decided here
//! is a pure step from what arrived to what to do.

use vstd::prelude::*;

use crate::error::{CodecError, NetworkError};
use crate::message::{Message, MessageV, RepoId, RepoMessage};

verus! {

/// Which direction a connection being set up is going.
#[derive(Clone, Copy, Debug)]
pub enum ConnDirection {
    Incoming,
    Outgoing,
}

/// The message a side owes before waiting on its peer: the outgoing side
/// opens with its own `Join`; the incoming side sends nothing until it hears
/// the peer's `Join`.
pub fn handshake_greeting(direction: &ConnDirection, local: &RepoId) -> (r: Option<Message>)
    ensures
        match direction {
            ConnDirection::Outgoing => r matches Some(m) && m@ == MessageV::Join(local@),
            ConnDirection::Incoming => r is None,
        },
{
    match direction {
        ConnDirection::Outgoing => Some(Message::Join(RepoId(local.0.clone()))),
        ConnDirection::Incoming => None,
    }
}

/// What the handshake decides on the first thing the stream yields (with the
/// stream's end as `None`): on the one acceptable message it yields the
/// remote identity and the reply still owed (`Joined` from the incoming side,
/// nothing more from the outgoing side); on anything else — a wrong message,
/// a decode error, or end of stream — a protocol error, and the connection is
/// abandoned before it was ever registered.
pub fn handshake_receive(
    direction: &ConnDirection,
    local: &RepoId,
    received: Option<Result<Message, CodecError>>,
) -> (r: Result<(RepoId, Option<Message>), NetworkError>)
    ensures
        match direction {
            ConnDirection::Incoming => match received {
                Some(Ok(Message::Join(peer))) => {
                    &&& r matches Ok(p)
                    &&& r matches Ok(p) ==> p.0@ == peer@ && (p.1 matches Some(m) && m@
                        == MessageV::Joined(local@))
                },
                _ => r == Err::<(RepoId, Option<Message>), NetworkError>(NetworkError::Error),
            },
            ConnDirection::Outgoing => match received {
                Some(Ok(Message::Joined(peer))) => {
                    &&& r matches Ok(p)
                    &&& r matches Ok(p) ==> p.0@ == peer@ && p.1 is None
                },
                _ => r == Err::<(RepoId, Option<Message>), NetworkError>(NetworkError::Error),
            },
        },
{
    match direction {
        ConnDirection::Incoming => match received {
            Some(Ok(Message::Join(peer))) => Ok(
                (peer, Some(Message::Joined(RepoId(local.0.clone())))),
            ),
            _ => Err(NetworkError::Error),
        },
        ConnDirection::Outgoing => match received {
            Some(Ok(Message::Joined(peer))) => Ok((peer, None)),
            _ => Err(NetworkError::Error),
        },
    }
}

/// Channel narrowing, receive half: once `Established`, an application
/// message passes through unwrapped, and anything else on the stream — a
/// stray `Join` or `Joined`, or an error the codec surfaced — becomes an
/// error element of the narrowed stream rather than ending it.
pub fn narrow_incoming(item: Result<Message, CodecError>) -> (r: Result<RepoMessage, NetworkError>)
    ensures
        match item {
            Ok(Message::Repo(m)) => {
                &&& r matches Ok(out)
                &&& r matches Ok(out) ==> out@ == m@
            },
            _ => r == Err::<RepoMessage, NetworkError>(NetworkError::Error),
        },
{
    match item {
        Ok(Message::Repo(m)) => Ok(m),
        _ => Err(NetworkError::Error),
    }
}

/// Channel narrowing, send half: an application message is wrapped back into
/// the generic message type before framing; an error is passed along.
pub fn widen_outgoing(item: Result<RepoMessage, NetworkError>) -> (r: Result<Message, NetworkError>)
    ensures
        match item {
            Ok(m) => {
                &&& r matches Ok(w)
                &&& r matches Ok(w) ==> w@ == MessageV::Repo(m@)
            },
            Err(e) => r == Err::<Message, NetworkError>(e),
        },
{
    match item {
        Ok(m) => Ok(Message::Repo(m)),
        Err(e) => Err(e),
    }
}

} // verus!
