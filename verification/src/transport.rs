//! What passes between the connection and its transport: the bytes that
//! wait to be written, the bytes that were read, and the right to read.
//!
//! The connection does no input or output. Whoever drives it writes what
//! [`InnerBackend::pending_output`] hands out and reports to
//! [`InnerBackend::flush`] how that went; and reads, while holding an
//! [`InnerReadEventsGuard`], and hands what was read to
//! [`InnerReadEventsGuard::read`].

use crate::backend::{Frame, InnerBackend};
use crate::bytes::copy_range;
use crate::object_id::ANONYMOUS_INTERFACE;
use crate::state::{ConnectionState, IoError, IoErrorKind, ViolationKind, WaylandError};
use crate::wire::{decode_header, read_header, Header, HEADER_SIZE};
use vstd::prelude::*;

verus! {

/// What a read has brought.
#[derive(Debug)]
pub struct Incoming {
    /// The bytes that were read.
    pub bytes: Vec<u8>,
    /// The file descriptors that came with them.
    pub fds: Vec<i32>,
}

/// A message cut from the bytes that were read.
pub struct FrameView {
    pub sender: u32,
    pub opcode: u16,
    pub body: Seq<u8>,
}

impl View for Frame {
    type V = FrameView;

    open spec fn view(&self) -> FrameView {
        FrameView { sender: self.sender, opcode: self.opcode, body: self.body@ }
    }
}

/// The views of the messages of a queue.
pub open spec fn frame_views(q: Seq<Frame>) -> Seq<FrameView> {
    q.map_values(|f: Frame| f@)
}

/// What cutting some bytes into messages gives.
pub struct Split {
    /// The whole messages at the start of the bytes, in order.
    pub frames: Seq<FrameView>,
    /// The bytes behind them.
    pub rest: Seq<u8>,
    /// The header at the start of the rest that gives a size that no
    /// message can have, if there is such a header.
    pub malformed: Option<Header>,
}

/// Whether a header gives a size that a message can have: not less than
/// the header's own, and a whole number of words.
pub open spec fn header_ok(h: Header) -> bool {
    h.size >= HEADER_SIZE && h.size % 4 == 0
}

/// Cuts bytes into messages: as long as a header and the bytes that it
/// announces are there, they make a message. The cutting stops at a header
/// that is malformed.
pub open spec fn split_frames(bytes: Seq<u8>) -> Split
    decreases bytes.len(),
{
    match decode_header(bytes) {
        None => Split { frames: Seq::empty(), rest: bytes, malformed: None },
        Some(h) => if !header_ok(h) {
            Split { frames: Seq::empty(), rest: bytes, malformed: Some(h) }
        } else if bytes.len() < h.size {
            Split { frames: Seq::empty(), rest: bytes, malformed: None }
        } else {
            let s = split_frames(bytes.skip(h.size as int));
            Split {
                frames: seq![
                    FrameView {
                        sender: h.sender,
                        opcode: h.opcode,
                        body: bytes.subrange(HEADER_SIZE as int, h.size as int),
                    },
                ] + s.frames,
                rest: s.rest,
                malformed: s.malformed,
            }
        },
    }
}

/// Who holds the right to read at one moment.
pub struct ReadSnapshot {
    /// The ticket of the guard that holds the right, if any does.
    pub reader: Option<u64>,
    /// The ticket of the next guard.
    pub next_ticket: u64,
}

/// How the right to read passes on: tickets are handed out upwards, and
/// the guard that holds the right held it before or has a ticket that had
/// not been handed out yet.
pub open spec fn read_evolves(a: ReadSnapshot, b: ReadSnapshot) -> bool {
    &&& a.next_ticket <= b.next_ticket
    &&& b.reader matches Some(t) ==> t < b.next_ticket && (a.reader == Some(t) || t
        >= a.next_ticket)
}

/// The right to read from the transport. At most one guard holds it at a
/// time; it is given back by reading or by cancelling.
#[derive(Debug)]
pub struct InnerReadEventsGuard {
    /// The ticket that tells this guard from every other.
    pub ticket: u64,
}

/// What asking for the right to read has come to.
#[derive(Debug)]
pub enum Prepared {
    /// The right to read was granted.
    Ready(InnerReadEventsGuard),
    /// Messages wait to be dispatched; that many must be dispatched first.
    Pending(usize),
    /// Another guard holds the right to read.
    Busy,
    /// Nobody holds the right to read, and the connection has no ticket
    /// left to tell one more guard from the others.
    Exhausted,
}

impl<D> InnerBackend<D> {
    /// Whether a guard holds the right to read from this connection.
    pub open spec fn holds_read(&self, guard: InnerReadEventsGuard) -> bool {
        self.reader == Some(guard.ticket)
    }

    /// Who holds the right to read.
    pub open spec fn read_snapshot(&self) -> ReadSnapshot {
        ReadSnapshot { reader: self.reader, next_ticket: self.next_ticket }
    }

    /// Whether the right to read is granted to whoever asks for it now:
    /// there is no sticky error, no message waits to be dispatched, no
    /// guard holds the right, and a ticket is left.
    pub open spec fn grants_read(&self) -> bool {
        &&& self.state.last_error is None
        &&& self.queue@.len() == 0
        &&& self.reader is None
        &&& self.next_ticket < u64::MAX
    }

    /// Whether two connections differ at most in who holds the right to
    /// read.
    pub open spec fn same_but_reader(&self, other: Self) -> bool {
        &&& self.registry == other.registry
        &&& self.state == other.state
        &&& self.known_proxies == other.known_proxies
        &&& self.next_id == other.next_id
        &&& self.outgoing == other.outgoing
        &&& self.outgoing_fds == other.outgoing_fds
        &&& self.incoming == other.incoming
        &&& self.incoming_fds == other.incoming_fds
        &&& self.queue == other.queue
    }

    /// The bytes and file descriptors that wait to be written, or the
    /// sticky error of the connection.
    pub fn pending_output(&self) -> (r: Result<(&Vec<u8>, &Vec<i32>), WaylandError>)
        ensures
            match r {
                Ok((bytes, fds)) => self.state.last_error is None && *bytes == self.outgoing
                    && *fds == self.outgoing_fds,
                Err(e) => self.state.last_error == Some(e),
            },
    {
        match self.state.no_last_error() {
            Ok(()) => Ok((&self.outgoing, &self.outgoing_fds)),
            Err(e) => Err(e),
        }
    }

    /// Takes note of how writing went.
    ///
    /// Where the connection has a sticky error, that error is returned and
    /// nothing changes. Where `written` bytes were written, they leave what
    /// waits to be written (all of it, where more is reported than
    /// waited), and if any were written, so do the file descriptors, which
    /// travel with the first byte. Where writing failed
    /// because the transport was not ready, that error is returned and
    /// nothing changes; any other error becomes the sticky error of the
    /// connection and is returned.
    pub fn flush(&mut self, written: Result<usize, IoError>) -> (r: Result<(), WaylandError>)
        requires
            old(self).wf(),
        ensures
            final(self).wf(),
            final(self).registry == old(self).registry,
            final(self).known_proxies == old(self).known_proxies,
            final(self).next_id == old(self).next_id,
            final(self).incoming == old(self).incoming,
            final(self).incoming_fds == old(self).incoming_fds,
            final(self).queue == old(self).queue,
            final(self).reader == old(self).reader,
            final(self).next_ticket == old(self).next_ticket,
            match (old(self).state.last_error, written) {
                (Some(e), _) => r == Err::<(), WaylandError>(e) && *final(self) == *old(self),
                (None, Ok(n)) => {
                    &&& r is Ok
                    &&& final(self).state == old(self).state
                    &&& final(self).outgoing@ == old(self).outgoing@.skip(
                        if n <= old(self).outgoing@.len() {
                            n as int
                        } else {
                            old(self).outgoing@.len() as int
                        },
                    )
                    &&& final(self).outgoing_fds@ == if n > 0 {
                        Seq::<i32>::empty()
                    } else {
                        old(self).outgoing_fds@
                    }
                },
                (None, Err(e)) => {
                    &&& r matches Err(err)
                    &&& final(self).outgoing == old(self).outgoing
                    &&& final(self).outgoing_fds == old(self).outgoing_fds
                    &&& if e.kind == IoErrorKind::WouldBlock {
                        err == WaylandError::Io(e) && final(self).state == old(self).state
                    } else {
                        &&& final(self).state == (ConnectionState {
                            last_error: Some(err),
                            ..old(self).state
                        })
                        &&& err == WaylandError::Io(e) || (e.raw_os_error is Some && err
                            == WaylandError::Protocol(old(self).state.protocol_error))
                    }
                },
            },
    {
        if let Err(e) = self.state.no_last_error() {
            return Err(e);
        }
        match written {
            Ok(n) => {
                let from = if n <= self.outgoing.len() {
                    n
                } else {
                    self.outgoing.len()
                };
                let rest = copy_range(&self.outgoing, from, self.outgoing.len());
                assert(rest@ =~= self.outgoing@.skip(from as int));
                self.outgoing = rest;
                if n > 0 {
                    self.outgoing_fds = Vec::new();
                }
                Ok(())
            },
            Err(e) => Err(self.state.store_if_not_wouldblock_and_return_error(e)),
        }
    }
}

/// The messages of a longer stretch of bytes are those of its first
/// message followed by those of what comes behind it.
proof fn lemma_split_step(bytes: Seq<u8>)
    ensures
        split_frames(bytes) == match decode_header(bytes) {
            None => Split { frames: Seq::empty(), rest: bytes, malformed: None },
            Some(h) => if !header_ok(h) {
                Split { frames: Seq::empty(), rest: bytes, malformed: Some(h) }
            } else if bytes.len() < h.size {
                Split { frames: Seq::empty(), rest: bytes, malformed: None }
            } else {
                let s = split_frames(bytes.skip(h.size as int));
                Split {
                    frames: seq![
                        FrameView {
                            sender: h.sender,
                            opcode: h.opcode,
                            body: bytes.subrange(HEADER_SIZE as int, h.size as int),
                        },
                    ] + s.frames,
                    rest: s.rest,
                    malformed: s.malformed,
                }
            },
        },
{
}

impl InnerReadEventsGuard {
    /// Asks for the right to read.
    ///
    /// Where the connection has a sticky error, that error is returned.
    /// Where messages wait to be dispatched, the right is not granted and
    /// their number is returned: they must be dispatched first. Where
    /// another guard holds the right, it is not granted either, nor where
    /// the connection has handed out every ticket. Else the right is
    /// granted to a new guard, whose ticket no guard has had before.
    /// Nothing changes but who holds the right to read.
    pub fn try_new<D>(backend: &mut InnerBackend<D>) -> (r: Result<Prepared, WaylandError>)
        requires
            old(backend).wf(),
        ensures
            final(backend).wf(),
            final(backend).same_but_reader(*old(backend)),
            read_evolves(old(backend).read_snapshot(), final(backend).read_snapshot()),
            r matches Ok(Prepared::Ready(_)) <==> old(backend).grants_read(),
            match r {
                Err(e) => old(backend).state.last_error == Some(e) && *final(backend) == *old(
                    backend,
                ),
                Ok(Prepared::Pending(n)) => {
                    &&& old(backend).state.last_error is None
                    &&& n == old(backend).queue@.len()
                    &&& n > 0
                    &&& *final(backend) == *old(backend)
                },
                Ok(Prepared::Busy) => {
                    &&& old(backend).state.last_error is None
                    &&& old(backend).queue@.len() == 0
                    &&& old(backend).reader is Some
                    &&& *final(backend) == *old(backend)
                },
                Ok(Prepared::Exhausted) => {
                    &&& old(backend).state.last_error is None
                    &&& old(backend).queue@.len() == 0
                    &&& old(backend).reader is None
                    &&& old(backend).next_ticket == u64::MAX
                    &&& *final(backend) == *old(backend)
                },
                Ok(Prepared::Ready(guard)) => {
                    &&& old(backend).state.last_error is None
                    &&& old(backend).queue@.len() == 0
                    &&& old(backend).reader is None
                    &&& guard.ticket == old(backend).next_ticket
                    &&& final(backend).holds_read(guard)
                    &&& final(backend).next_ticket == old(backend).next_ticket + 1
                },
            },
    {
        if let Err(e) = backend.state.no_last_error() {
            return Err(e);
        }
        let waiting = backend.queue.len();
        if waiting > 0 {
            return Ok(Prepared::Pending(waiting));
        }
        if backend.reader.is_some() {
            return Ok(Prepared::Busy);
        }
        let ticket = backend.next_ticket;
        if ticket == u64::MAX {
            return Ok(Prepared::Exhausted);
        }
        backend.reader = Some(ticket);
        backend.next_ticket = ticket + 1;
        Ok(Prepared::Ready(InnerReadEventsGuard { ticket }))
    }

    /// The handle of the transport to wait on.
    pub fn connection_fd<D>(&self, backend: &InnerBackend<D>) -> (fd: u64)
        ensures
            fd == backend.state.display,
    {
        backend.state.display
    }

    /// Gives the right to read back without reading.
    pub fn cancel<D>(self, backend: &mut InnerBackend<D>)
        requires
            old(backend).wf(),
            old(backend).holds_read(self),
        ensures
            final(backend).wf(),
            final(backend).reader is None,
            final(backend).next_ticket == old(backend).next_ticket,
            final(backend).same_but_reader(*old(backend)),
            read_evolves(old(backend).read_snapshot(), final(backend).read_snapshot()),
    {
        backend.reader = None;
    }

    /// Takes what was read, cuts it into messages and puts them at the end
    /// of the queue, and gives the right to read back.
    ///
    /// Where reading failed because the transport was not ready, that error
    /// is returned and nothing else changes; any other error of the
    /// transport becomes the sticky error of the connection and is
    /// returned. Where the connection has a sticky error already, that
    /// error is returned and what was read is dropped. Else the bytes are
    /// put behind those that are left from earlier reads and the file
    /// descriptors behind those that wait; the whole messages at the start
    /// of the bytes go to the end of the queue, and their number is
    /// returned. A header that gives a size that no message can have is a
    /// violation of the protocol: it becomes the sticky error and is
    /// returned, after the messages before it have been queued.
    pub fn read<D>(self, backend: &mut InnerBackend<D>, input: Result<Incoming, IoError>) -> (r:
        Result<usize, WaylandError>)
        requires
            old(backend).wf(),
            old(backend).holds_read(self),
        ensures
            final(backend).wf(),
            final(backend).reader is None,
            final(backend).next_ticket == old(backend).next_ticket,
            read_evolves(old(backend).read_snapshot(), final(backend).read_snapshot()),
            final(backend).registry == old(backend).registry,
            final(backend).known_proxies == old(backend).known_proxies,
            final(backend).next_id == old(backend).next_id,
            final(backend).outgoing == old(backend).outgoing,
            final(backend).outgoing_fds == old(backend).outgoing_fds,
            match (old(backend).state.last_error, input) {
                (first, Err(e)) => {
                    &&& r matches Err(err)
                    &&& final(backend).incoming == old(backend).incoming
                    &&& final(backend).incoming_fds == old(backend).incoming_fds
                    &&& final(backend).queue == old(backend).queue
                    &&& if e.kind == IoErrorKind::WouldBlock {
                        err == WaylandError::Io(e) && final(backend).state == old(backend).state
                    } else {
                        &&& final(backend).state == (ConnectionState {
                            last_error: Some(err),
                            ..old(backend).state
                        })
                        &&& first matches Some(f) ==> err == f
                        &&& first is None ==> err == WaylandError::Io(e) || (e.raw_os_error
                            is Some && err == WaylandError::Protocol(
                            old(backend).state.protocol_error,
                        ))
                    }
                },
                (Some(f), Ok(_)) => {
                    &&& r == Err::<usize, WaylandError>(f)
                    &&& final(backend).state == old(backend).state
                    &&& final(backend).incoming == old(backend).incoming
                    &&& final(backend).incoming_fds == old(backend).incoming_fds
                    &&& final(backend).queue == old(backend).queue
                },
                (None, Ok(incoming)) => {
                    let split = split_frames(old(backend).incoming@ + incoming.bytes@);
                    &&& final(backend).incoming@ == split.rest
                    &&& final(backend).incoming_fds@ == old(backend).incoming_fds@
                        + incoming.fds@
                    &&& frame_views(final(backend).queue@) == frame_views(old(backend).queue@)
                        + split.frames
                    &&& match split.malformed {
                        None => r == Ok::<usize, WaylandError>(split.frames.len() as usize)
                            && final(backend).state == old(backend).state,
                        Some(h) => {
                            let details = crate::state::ProtocolError {
                                code: ViolationKind::MalformedHeader,
                                object_id: h.sender,
                                object_interface: ANONYMOUS_INTERFACE,
                            };
                            &&& r == Err::<usize, WaylandError>(WaylandError::Protocol(details))
                            &&& final(backend).state == (ConnectionState {
                                last_error: Some(WaylandError::Protocol(details)),
                                protocol_error: details,
                                ..old(backend).state
                            })
                        },
                    }
                },
            },
    {
        backend.reader = None;
        let incoming = match input {
            Err(e) => {
                return Err(backend.state.store_if_not_wouldblock_and_return_error(e));
            },
            Ok(incoming) => incoming,
        };
        if let Err(e) = backend.state.no_last_error() {
            return Err(e);
        }
        let Incoming { bytes, fds } = incoming;
        let mut bytes = bytes;
        let mut fds = fds;
        let ghost incoming_fds = fds@;
        backend.incoming.append(&mut bytes);
        backend.incoming_fds.append(&mut fds);
        let ghost all = backend.incoming@;
        let mut pos: usize = 0;
        let mut count: usize = 0;
        let mut malformed: Option<Header> = None;
        assert(all.skip(0) =~= all);
        assert(frame_views(backend.queue@) =~= frame_views(old(backend).queue@) + Seq::<
            FrameView,
        >::empty());
        loop
            invariant_except_break
                count <= pos,
                malformed is None,
                exists|done: Seq<FrameView>|
                    {
                        &&& done.len() == count
                        &&& frame_views(backend.queue@) == frame_views(old(backend).queue@) + done
                        &&& split_frames(all).frames == done + #[trigger] split_frames(
                            all.skip(pos as int),
                        ).frames
                    },
                split_frames(all).rest == split_frames(all.skip(pos as int)).rest,
                split_frames(all).malformed == split_frames(all.skip(pos as int)).malformed,
            invariant
                pos <= backend.incoming.len(),
                backend.incoming@ == all,
                backend.reader is None,
                backend.next_ticket == old(backend).next_ticket,
                backend.registry == old(backend).registry,
                backend.state == old(backend).state,
                backend.known_proxies == old(backend).known_proxies,
                backend.next_id == old(backend).next_id,
                backend.outgoing == old(backend).outgoing,
                backend.outgoing_fds == old(backend).outgoing_fds,
                backend.incoming_fds@ == old(backend).incoming_fds@ + incoming_fds,
            ensures
                pos <= backend.incoming.len(),
                backend.incoming@ == all,
                frame_views(backend.queue@) == frame_views(old(backend).queue@) + split_frames(
                    all,
                ).frames,
                split_frames(all).frames.len() == count,
                split_frames(all).rest == all.skip(pos as int),
                split_frames(all).malformed == malformed,
            decreases backend.incoming.len() - pos,
        {
            let ghost done = choose|done: Seq<FrameView>|
                {
                    &&& done.len() == count
                    &&& frame_views(backend.queue@) == frame_views(old(backend).queue@) + done
                    &&& split_frames(all).frames == done + #[trigger] split_frames(
                        all.skip(pos as int),
                    ).frames
                };
            proof {
                lemma_split_step(all.skip(pos as int));
            }
            let h = match read_header(&backend.incoming, pos) {
                None => {
                    assert(done + Seq::<FrameView>::empty() =~= done);
                    break ;
                },
                Some(h) => h,
            };
            if (h.size as usize) < HEADER_SIZE || h.size % 4 != 0 {
                malformed = Some(h);
                assert(done + Seq::<FrameView>::empty() =~= done);
                break ;
            }
            if backend.incoming.len() - pos < h.size as usize {
                assert(done + Seq::<FrameView>::empty() =~= done);
                break ;
            }
            let body = copy_range(&backend.incoming, pos + HEADER_SIZE, pos + h.size as usize);
            let frame = Frame { sender: h.sender, opcode: h.opcode, body };
            proof {
                assert(body@ =~= all.skip(pos as int).subrange(HEADER_SIZE as int, h.size as int));
                assert(all.skip(pos as int).skip(h.size as int) =~= all.skip(pos + h.size));
                let next = split_frames(all.skip(pos + h.size)).frames;
                assert(split_frames(all.skip(pos as int)).frames == seq![frame@] + next);
                assert(done + (seq![frame@] + next) =~= done.push(frame@) + next);
                assert(frame_views(backend.queue@.push(frame)) =~= frame_views(
                    backend.queue@,
                ).push(frame@));
                assert((frame_views(old(backend).queue@) + done).push(frame@) =~= frame_views(
                    old(backend).queue@,
                ) + done.push(frame@));
            }
            backend.queue.push_back(frame);
            pos = pos + h.size as usize;
            count = count + 1;
        }
        let rest = copy_range(&backend.incoming, pos, backend.incoming.len());
        assert(rest@ =~= all.skip(pos as int));
        backend.incoming = rest;
        match malformed {
            Some(h) => Err(
                backend.state.violation(
                    ViolationKind::MalformedHeader,
                    h.sender,
                    ANONYMOUS_INTERFACE,
                ),
            ),
            None => Ok(count),
        }
    }
}

} // verus!
