//! The errors of a connection and the slot that keeps the first fatal one.

use crate::object_id::{InnerObjectId, InterfaceId};
use vstd::prelude::*;

verus! {

/// An operation named an object that is dead, or a foreign object where
/// only a managed one will do.
#[derive(Clone, Copy, Debug, PartialEq, Eq, Structural)]
pub struct InvalidId;

/// What a peer did that the protocol does not allow.
#[derive(Clone, Copy, Debug, PartialEq, Eq, Structural)]
pub enum ViolationKind {
    /// No violation has been seen.
    NoViolation,
    /// The header of a message gives a size that no message can have.
    MalformedHeader,
    /// The interface of the receiving object has no event of that opcode.
    UnknownOpcode,
    /// The body of a message does not hold the arguments of its signature.
    MalformedArguments,
    /// An argument names an object that does not exist.
    UnknownObject,
    /// An argument names an object of another interface than the signature
    /// asks for.
    WrongInterface,
    /// A new object is given a number that is taken, or that the peer may
    /// not hand out.
    BadNewId,
}

/// A violation of the protocol, and the object on which it was seen.
#[derive(Clone, Copy, Debug, PartialEq, Eq, Structural)]
pub struct ProtocolError {
    /// What was violated.
    pub code: ViolationKind,
    /// The number of the object that the offending message was sent on.
    pub object_id: u32,
    /// The interface of that object; the anonymous one where it is not known.
    pub object_interface: InterfaceId,
}

/// What the logic needs to know of the kind of a transport error.
#[derive(Clone, Copy, Debug, PartialEq, Eq, Structural)]
pub enum IoErrorKind {
    /// The transport was not ready; the operation can be tried again.
    WouldBlock,
    /// Anything else.
    Other,
}

/// An error of the transport, as plain values.
#[derive(Clone, Copy, Debug, PartialEq, Eq, Structural)]
pub struct IoError {
    /// The error number of the operating system, where there is one.
    pub raw_os_error: Option<i32>,
    /// The kind of the error.
    pub kind: IoErrorKind,
}

/// An error of the connection.
#[derive(Clone, Copy, Debug, PartialEq, Eq, Structural)]
pub enum WaylandError {
    /// The transport failed.
    Io(IoError),
    /// The protocol was violated.
    Protocol(ProtocolError),
}

/// `nix::errno::Errno::EPROTO`, as a number: the error number by which the
/// operating system reports a protocol error. Its value differs between
/// systems, so nothing is claimed of it.
#[verifier::external_body]
fn errno_eproto() -> (e: i32) {
    nix::errno::Errno::EPROTO as i32
}

/// What a transport error amounts to: a violation of the protocol, with the
/// details that were recorded when it was seen, where its error number is
/// the one for protocol errors, and a transport error else.
pub open spec fn classify_spec(err: IoError, eproto: i32, recorded: ProtocolError) -> WaylandError {
    if err.raw_os_error == Some(eproto) {
        WaylandError::Protocol(recorded)
    } else {
        WaylandError::Io(err)
    }
}

/// Tells a violation of the protocol from a transport error, given the
/// error number that stands for protocol errors on this system.
pub fn classify(err: IoError, eproto: i32, recorded: ProtocolError) -> (r: WaylandError)
    ensures
        r == classify_spec(err, eproto, recorded),
{
    match err.raw_os_error {
        Some(raw) if raw == eproto => WaylandError::Protocol(recorded),
        _ => WaylandError::Io(err),
    }
}

/// The transport handle of a connection, its root object, and its errors.
#[derive(Debug)]
pub struct ConnectionState {
    /// The handle of the transport.
    pub display: u64,
    /// The handle of the queue of a connection that is a guest on a
    /// transport owned by someone else; 0 on a connection that owns its
    /// transport.
    pub evq: u64,
    /// The root object.
    pub display_id: InnerObjectId,
    /// The first fatal error; once set it stays.
    pub last_error: Option<WaylandError>,
    /// The last violation of the protocol that was seen.
    pub protocol_error: ProtocolError,
}

impl ConnectionState {
    /// What [`ConnectionState::record`] leaves in the slot: the error that
    /// it held, or else the given one.
    pub open spec fn recorded(&self, err: WaylandError) -> WaylandError {
        match self.last_error {
            Some(first) => first,
            None => err,
        }
    }

    /// Fails with the sticky error if there is one.
    pub fn no_last_error(&self) -> (r: Result<(), WaylandError>)
        ensures
            match r {
                Ok(()) => self.last_error is None,
                Err(e) => self.last_error == Some(e),
            },
    {
        match self.last_error {
            Some(err) => Err(err),
            None => Ok(()),
        }
    }

    /// Puts an error in the slot unless one is there, and returns the error
    /// that the slot holds from now on.
    pub fn record(&mut self, err: WaylandError) -> (r: WaylandError)
        ensures
            r == old(self).recorded(err),
            *final(self) == (ConnectionState { last_error: Some(r), ..*old(self) }),
    {
        match self.last_error {
            Some(first) => first,
            None => {
                self.last_error = Some(err);
                err
            },
        }
    }

    /// Makes a transport error the sticky error of the connection, unless
    /// it has one already, and returns the sticky error. An error whose
    /// number is the system's number for protocol errors is kept as a
    /// violation of the protocol, with the details that were recorded; any
    /// other is kept as it is.
    pub fn store_and_return_error(&mut self, err: IoError) -> (r: WaylandError)
        ensures
            final(self).last_error == Some(r),
            *final(self) == (ConnectionState { last_error: Some(r), ..*old(self) }),
            old(self).last_error matches Some(first) ==> r == first,
            old(self).last_error is None ==> r == WaylandError::Io(err) || (err.raw_os_error
                is Some && r == WaylandError::Protocol(old(self).protocol_error)),
    {
        let eproto = errno_eproto();
        let err = classify(err, eproto, self.protocol_error);
        self.record(err)
    }

    /// An error that says that the transport was not ready is handed back
    /// as it is and leaves no trace; any other becomes the sticky error as
    /// [`ConnectionState::store_and_return_error`] says.
    pub fn store_if_not_wouldblock_and_return_error(&mut self, e: IoError) -> (r: WaylandError)
        ensures
            e.kind == IoErrorKind::WouldBlock ==> r == WaylandError::Io(e) && *final(self) == *old(
                self,
            ),
            e.kind != IoErrorKind::WouldBlock ==> {
                &&& *final(self) == (ConnectionState { last_error: Some(r), ..*old(self) })
                &&& old(self).last_error matches Some(first) ==> r == first
                &&& old(self).last_error is None ==> r == WaylandError::Io(e) || (e.raw_os_error
                    is Some && r == WaylandError::Protocol(old(self).protocol_error))
            },
    {
        if e.kind != IoErrorKind::WouldBlock {
            self.store_and_return_error(e)
        } else {
            WaylandError::Io(e)
        }
    }

    /// Records a violation of the protocol and makes it the sticky error of
    /// the connection, unless it has one already. Returns the sticky error.
    pub fn violation(&mut self, code: ViolationKind, object_id: u32, object_interface: InterfaceId) -> (r:
        WaylandError)
        ensures
            r == old(self).recorded(
                WaylandError::Protocol(ProtocolError { code, object_id, object_interface }),
            ),
            *final(self) == (ConnectionState {
                last_error: Some(r),
                protocol_error: ProtocolError { code, object_id, object_interface },
                ..*old(self)
            }),
    {
        let details = ProtocolError { code, object_id, object_interface };
        self.protocol_error = details;
        self.record(WaylandError::Protocol(details))
    }

    /// Once the connection has a sticky error, no error that is stored
    /// later replaces it.
    pub proof fn lemma_first_error_wins(&self, first: WaylandError, later: WaylandError)
        requires
            self.last_error == Some(first),
        ensures
            self.recorded(later) == first,
    {
    }
}

} // verus!
