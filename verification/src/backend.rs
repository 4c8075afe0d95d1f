//! The connection: its registry, its objects, what waits to be written,
//! what was read and waits to be dispatched, and who may read next.

use crate::message::ObjectInfo;
use crate::object_id::{InnerObjectId, InterfaceId, ANONYMOUS_INTERFACE};
use crate::protocol::Registry;
use crate::state::{ConnectionState, InvalidId, ProtocolError, ViolationKind, WaylandError};
use crate::table::{identity, ObjectTable, ProxyUserData};
use std::collections::VecDeque;
use vstd::prelude::*;

verus! {

/// The wire number of the root object.
pub const DISPLAY_ID: u32 = 1;

/// The liveness cell of the root object of a connection that owns its
/// transport. The root object lives as long as the connection.
pub const DISPLAY_CELL: u64 = 0;

/// The handle of the root object, which has no entry in the table. It lies
/// above every handle of the table.
pub const DISPLAY_HANDLE: u64 = u64::MAX;

/// The first wire number that the server hands out. The client numbers the
/// objects that it creates below it, the server those that it creates from
/// it on.
pub const SERVER_ID_BASE: u32 = 0xFF00_0000;

/// A message that was read and waits to be dispatched.
#[derive(Clone, Debug, PartialEq, Eq)]
pub struct Frame {
    /// The wire number of the object that the message is for.
    pub sender: u32,
    /// The opcode of the message.
    pub opcode: u16,
    /// The bytes of the arguments.
    pub body: Vec<u8>,
}

/// The handler of an object, as [`InnerBackend::get_data`] hands it out.
#[derive(Debug)]
pub enum ObjectData<'a, D> {
    /// The root object has no handler of its own; its events are dropped.
    Dumb,
    /// The object was created by an event whose handler has not supplied
    /// the handler of the new object yet.
    Uninit,
    /// The handler that was attached to the object.
    User(&'a D),
}

/// A connection. `D` is the type of the handlers that are attached to its
/// objects; the connection keeps them and hands them out, and never calls
/// them.
pub struct InnerBackend<D> {
    /// The interfaces that the connection knows.
    pub registry: Registry,
    /// The transport handle, the root object and the errors.
    pub state: ConnectionState,
    /// The live objects other than the root object.
    pub known_proxies: ObjectTable<D>,
    /// The wire number of the next object that the client creates.
    pub next_id: u32,
    /// The bytes of the requests that wait to be written.
    pub outgoing: Vec<u8>,
    /// The file descriptors that travel with them.
    pub outgoing_fds: Vec<i32>,
    /// The bytes that were read and do not make a whole message yet.
    pub incoming: Vec<u8>,
    /// The file descriptors that were read and that no event has taken.
    pub incoming_fds: Vec<i32>,
    /// The events that were read and wait to be dispatched, oldest first.
    pub queue: VecDeque<Frame>,
    /// The ticket of the guard that holds the right to read, if any does.
    pub reader: Option<u64>,
    /// The ticket of the next guard.
    pub next_ticket: u64,
}

impl<D> InnerBackend<D> {
    /// The invariant of a connection.
    pub open spec fn wf(&self) -> bool {
        &&& self.registry.wf()
        &&& self.known_proxies.wf()
        &&& self.state.display_id == (InnerObjectId {
            connection: self.known_proxies.connection(),
            id: DISPLAY_ID,
            ptr: DISPLAY_HANDLE,
            alive: if self.state.evq == 0 {
                Some(DISPLAY_CELL)
            } else {
                None
            },
            interface: self.state.display_id.interface,
        })
        &&& self.state.display_id.interface < self.registry@.len()
        &&& 2 <= self.next_id <= SERVER_ID_BASE
        &&& forall|p: u64| #[trigger]
            self.known_proxies@.contains_key(p) ==> {
                &&& self.known_proxies@[p].interface < self.registry@.len()
                &&& self.known_proxies@[p].id != DISPLAY_ID
                &&& self.known_proxies@[p].id < SERVER_ID_BASE ==> self.known_proxies@[p].id
                    < self.next_id
            }
        &&& self.reader matches Some(t) ==> t < self.next_ticket
    }

    /// The number of the connection, which tells its objects from those of
    /// every other connection.
    pub open spec fn connection(&self) -> u64 {
        self.known_proxies.connection()
    }

    /// Whether an identity denotes the root object of this connection.
    pub open spec fn is_display(&self, id: InnerObjectId) -> bool {
        id == self.state.display_id
    }

    /// Whether an identity denotes a live object of this connection: the
    /// root object, or an object of the table.
    pub open spec fn is_live(&self, id: InnerObjectId) -> bool {
        self.is_display(id) || self.known_proxies.is_alive_spec(id)
    }

    /// The version that a live object speaks; the root object speaks
    /// version 1.
    pub open spec fn version_of(&self, id: InnerObjectId) -> u32 {
        if self.is_display(id) {
            1
        } else {
            self.known_proxies@[id.ptr].version
        }
    }

    /// The state of a connection that has done nothing yet, with a given
    /// root object.
    pub open spec fn initial_state(display: u64, evq: u64, display_id: InnerObjectId) -> ConnectionState {
        ConnectionState {
            display,
            evq,
            display_id,
            last_error: None,
            protocol_error: ProtocolError {
                code: ViolationKind::NoViolation,
                object_id: 0,
                object_interface: ANONYMOUS_INTERFACE,
            },
        }
    }

    /// A connection on a transport that it owns. `display` is the handle of
    /// the transport, and `connection` the number of the connection, which
    /// goes into the identity of each of its objects: identities of
    /// connections with different numbers are never equal. The root object
    /// has the wire number 1 and the liveness cell 0; nothing waits to be
    /// written, read or dispatched, nobody holds the right to read, and
    /// there is no error.
    pub fn connect(
        registry: Registry,
        display_interface: InterfaceId,
        display: u64,
        connection: u64,
    ) -> (b: Self)
        requires
            registry.wf(),
            display_interface < registry@.len(),
        ensures
            b.wf(),
            b.registry == registry,
            b.connection() == connection,
            b.state == Self::initial_state(
                display,
                0,
                InnerObjectId {
                    connection,
                    id: DISPLAY_ID,
                    ptr: DISPLAY_HANDLE,
                    alive: Some(DISPLAY_CELL),
                    interface: display_interface,
                },
            ),
            b.is_fresh(),
    {
        Self::with_display(
            registry,
            display,
            0,
            InnerObjectId {
                connection,
                id: DISPLAY_ID,
                ptr: DISPLAY_HANDLE,
                alive: Some(DISPLAY_CELL),
                interface: display_interface,
            },
        )
    }

    /// A connection that is a guest on a transport owned by someone else,
    /// with a queue of its own and a connection number of its own. Its root
    /// object is foreign: it has no liveness cell.
    pub fn from_foreign_display(
        registry: Registry,
        display_interface: InterfaceId,
        display: u64,
        evq: u64,
        connection: u64,
    ) -> (b: Self)
        requires
            registry.wf(),
            display_interface < registry@.len(),
            evq != 0,
        ensures
            b.wf(),
            b.registry == registry,
            b.connection() == connection,
            b.state == Self::initial_state(
                display,
                evq,
                InnerObjectId {
                    connection,
                    id: DISPLAY_ID,
                    ptr: DISPLAY_HANDLE,
                    alive: None,
                    interface: display_interface,
                },
            ),
            b.is_fresh(),
    {
        Self::with_display(
            registry,
            display,
            evq,
            InnerObjectId {
                connection,
                id: DISPLAY_ID,
                ptr: DISPLAY_HANDLE,
                alive: None,
                interface: display_interface,
            },
        )
    }

    /// What holds of a connection that has done nothing yet.
    pub open spec fn is_fresh(&self) -> bool {
        &&& self.known_proxies@ == Map::<u64, ProxyUserData<D>>::empty()
        &&& self.known_proxies.next_cell() == 1
        &&& self.next_id == 2
        &&& self.outgoing@.len() == 0
        &&& self.outgoing_fds@.len() == 0
        &&& self.incoming@.len() == 0
        &&& self.incoming_fds@.len() == 0
        &&& self.queue@.len() == 0
        &&& self.reader is None
        &&& self.next_ticket == 0
    }

    fn with_display(registry: Registry, display: u64, evq: u64, display_id: InnerObjectId) -> (b:
        Self)
        requires
            registry.wf(),
            display_id == (InnerObjectId {
                connection: display_id.connection,
                id: DISPLAY_ID,
                ptr: DISPLAY_HANDLE,
                alive: if evq == 0 {
                    Some(DISPLAY_CELL)
                } else {
                    None
                },
                interface: display_id.interface,
            }),
            display_id.interface < registry@.len(),
        ensures
            b.wf(),
            b.registry == registry,
            b.connection() == display_id.connection,
            b.state == Self::initial_state(display, evq, display_id),
            b.is_fresh(),
    {
        InnerBackend {
            registry,
            state: ConnectionState {
                display,
                evq,
                display_id,
                last_error: None,
                protocol_error: ProtocolError {
                    code: ViolationKind::NoViolation,
                    object_id: 0,
                    object_interface: ANONYMOUS_INTERFACE,
                },
            },
            known_proxies: ObjectTable::new(display_id.connection),
            next_id: 2,
            outgoing: Vec::new(),
            outgoing_fds: Vec::new(),
            incoming: Vec::new(),
            incoming_fds: Vec::new(),
            queue: VecDeque::new(),
            reader: None,
            next_ticket: 0,
        }
    }

    /// The handle of the transport.
    pub fn display_ptr(&self) -> (p: u64)
        ensures
            p == self.state.display,
    {
        self.state.display
    }

    /// The identity of the root object.
    pub fn display_id(&self) -> (id: InnerObjectId)
        ensures
            id == self.state.display_id,
    {
        self.state.display_id
    }

    /// The sticky error of the connection, if it has one.
    pub fn last_error(&self) -> (e: Option<WaylandError>)
        ensures
            e == self.state.last_error,
    {
        self.state.last_error
    }

    /// The identity of no object.
    pub fn null_id() -> (id: InnerObjectId)
        ensures
            id == InnerObjectId::null_spec(),
    {
        InnerObjectId { connection: 0, id: 0, ptr: 0, alive: None, interface: ANONYMOUS_INTERFACE }
    }

    /// Whether an identity denotes a live object of this connection.
    pub fn is_alive(&self, id: &InnerObjectId) -> (r: bool)
        ensures
            r == self.is_live(*id),
    {
        let d = &self.state.display_id;
        let same_cell = match (id.alive, d.alive) {
            (Some(a), Some(b)) => a == b,
            (None, None) => true,
            _ => false,
        };
        if id.connection == d.connection && id.id == d.id && id.ptr == d.ptr && same_cell
            && id.interface == d.interface {
            true
        } else {
            self.known_proxies.is_alive(id)
        }
    }

    /// What is known of a live object. Fails exactly when the identity
    /// denotes no live object of this connection.
    pub fn info(&self, id: InnerObjectId) -> (r: Result<ObjectInfo, InvalidId>)
        requires
            self.wf(),
        ensures
            match r {
                Ok(info) => self.is_live(id) && info == (ObjectInfo {
                    id: id.id,
                    interface: id.interface,
                    version: self.version_of(id),
                }),
                Err(_) => !self.is_live(id),
            },
    {
        if !self.is_alive(&id) {
            return Err(InvalidId);
        }
        let version = if id.id == DISPLAY_ID {
            1
        } else {
            match self.known_proxies.lookup(id.ptr) {
                Some(e) => e.version,
                None => 1,
            }
        };
        Ok(ObjectInfo { id: id.id, interface: id.interface, version })
    }

    /// The handler of a live managed object. Fails exactly when the
    /// identity is not managed or denotes no live object of this connection.
    pub fn get_data(&self, id: InnerObjectId) -> (r: Result<ObjectData<'_, D>, InvalidId>)
        requires
            self.wf(),
        ensures
            r is Err <==> !(id.is_managed() && self.is_live(id)),
            r matches Ok(d) ==> d == if self.is_display(id) {
                ObjectData::<D>::Dumb
            } else {
                match self.known_proxies@[id.ptr].data {
                    Some(data) => ObjectData::User(&data),
                    None => ObjectData::Uninit,
                }
            },
    {
        if id.alive.is_none() || !self.is_alive(&id) {
            return Err(InvalidId);
        }
        if id.id == DISPLAY_ID {
            return Ok(ObjectData::Dumb);
        }
        match self.known_proxies.lookup(id.ptr) {
            Some(e) => match &e.data {
                Some(d) => Ok(ObjectData::User(d)),
                None => Ok(ObjectData::Uninit),
            },
            None => Err(InvalidId),
        }
    }

    /// Replaces the handler of a live managed object other than the root
    /// object. Fails, and changes nothing, exactly when the identity is not
    /// managed, denotes no live object of this connection, or denotes the
    /// root object.
    pub fn set_data(&mut self, id: InnerObjectId, data: D) -> (r: Result<(), InvalidId>)
        requires
            old(self).wf(),
        ensures
            final(self).wf(),
            r is Ok <==> old(self).known_proxies.is_alive_spec(id),
            r is Err ==> *final(self) == *old(self),
            r is Ok ==> {
                &&& final(self).known_proxies@ == old(self).known_proxies@.insert(
                    id.ptr,
                    ProxyUserData { data: Some(data), ..old(self).known_proxies@[id.ptr] },
                )
                &&& final(self).known_proxies.next_cell() == old(self).known_proxies.next_cell()
                &&& final(self).same_but_objects(*old(self))
            },
            crate::table::evolves(
                old(self).known_proxies@,
                old(self).known_proxies.next_cell(),
                final(self).known_proxies@,
                final(self).known_proxies.next_cell(),
            ),
    {
        proof {
            crate::table::lemma_evolves_refl(self.known_proxies@, self.known_proxies.next_cell());
        }
        if !self.known_proxies.is_alive(&id) {
            return Err(InvalidId);
        }
        match self.known_proxies.attach(id.ptr, data) {
            Ok(_) => {
                assert forall|p: u64| #[trigger]
                    self.known_proxies@.contains_key(p) implies old(self).known_proxies@.contains_key(
                    p,
                ) && crate::table::same_entry(old(self).known_proxies@[p], self.known_proxies@[p]) by {}
                Ok(())
            },
            Err(_) => Err(InvalidId),
        }
    }

    /// Whether two connections differ in their objects at most.
    pub open spec fn same_but_objects(&self, other: Self) -> bool {
        &&& self.connection() == other.connection()
        &&& self.registry == other.registry
        &&& self.state == other.state
        &&& self.next_id == other.next_id
        &&& self.outgoing == other.outgoing
        &&& self.outgoing_fds == other.outgoing_fds
        &&& self.incoming == other.incoming
        &&& self.incoming_fds == other.incoming_fds
        &&& self.queue == other.queue
        &&& self.reader == other.reader
        &&& self.next_ticket == other.next_ticket
    }
}

/// What is to be done with the transport when a connection ends.
#[derive(Clone, Copy, Debug, PartialEq, Eq, Structural)]
pub enum TransportEnd {
    /// The connection owns the transport: it is to be closed.
    Disconnect,
    /// The connection is a guest: only its queue is to be destroyed.
    DestroyQueue(u64),
}

/// What the end of a connection leaves to be done.
#[derive(Debug)]
pub struct Closed<D> {
    /// The identity and the handler of each object that was alive, each
    /// exactly once: the handlers are to be told that the objects are gone.
    pub destroyed: Vec<(InnerObjectId, Option<D>)>,
    /// What is to be done with the transport.
    pub transport: TransportEnd,
}

impl<D> InnerBackend<D> {
    /// Ends the connection: every object leaves the table, and is handed
    /// out with its handler, once. A second call finds no object.
    pub fn teardown(&mut self) -> (r: Closed<D>)
        requires
            old(self).wf(),
        ensures
            final(self).wf(),
            final(self).same_but_objects(*old(self)),
            final(self).known_proxies@ == Map::<u64, ProxyUserData<D>>::empty(),
            final(self).known_proxies.next_cell() == old(self).known_proxies.next_cell(),
            r.transport == if old(self).state.evq == 0 {
                TransportEnd::Disconnect
            } else {
                TransportEnd::DestroyQueue(old(self).state.evq)
            },
            forall|p: u64| #[trigger]
                old(self).known_proxies@.contains_key(p) ==> exists|i: int|
                    0 <= i < r.destroyed@.len() && (#[trigger] r.destroyed@[i]).0 == identity(
                        old(self).connection(),
                        p,
                        old(self).known_proxies@[p],
                    ),
            forall|i: int|
                0 <= i < r.destroyed@.len() ==> {
                    &&& old(self).known_proxies.is_alive_spec((#[trigger] r.destroyed@[i]).0)
                    &&& r.destroyed@[i].1 == old(self).known_proxies@[r.destroyed@[i].0.ptr].data
                },
            forall|i: int, j: int|
                0 <= i < j < r.destroyed@.len() ==> !(#[trigger] r.destroyed@[i]).0.same_object(
                    &(#[trigger] r.destroyed@[j]).0,
                ),
            crate::table::evolves(
                old(self).known_proxies@,
                old(self).known_proxies.next_cell(),
                final(self).known_proxies@,
                final(self).known_proxies.next_cell(),
            ),
    {
        let destroyed = self.known_proxies.drain();
        let transport = if self.state.evq == 0 {
            TransportEnd::Disconnect
        } else {
            TransportEnd::DestroyQueue(self.state.evq)
        };
        assert forall|i: int, j: int| 0 <= i < j < destroyed@.len() implies !(
        #[trigger] destroyed@[i]).0.same_object(&(#[trigger] destroyed@[j]).0) by {
            let a = destroyed@[i].0;
            let b = destroyed@[j].0;
            assert(old(self).known_proxies@.contains_key(a.ptr));
            assert(old(self).known_proxies@.contains_key(b.ptr));
            assert(a.ptr != b.ptr);
        }
        Closed { destroyed, transport }
    }
}

impl<D> InnerBackend<D> {
    /// Ends the connection as [`InnerBackend::teardown`] does, provided
    /// that it has a sticky error; else changes nothing and returns `None`.
    pub fn teardown_if_failed(&mut self) -> (r: Option<Closed<D>>)
        requires
            old(self).wf(),
        ensures
            final(self).wf(),
            final(self).same_but_objects(*old(self)),
            final(self).known_proxies.next_cell() == old(self).known_proxies.next_cell(),
            old(self).state.last_error is None ==> r is None && *final(self) == *old(self),
            old(self).state.last_error is Some ==> r is Some && final(self).known_proxies@
                == Map::<u64, ProxyUserData<D>>::empty(),
            r matches Some(closed) ==> {
                &&& forall|p: u64| #[trigger]
                    old(self).known_proxies@.contains_key(p) ==> exists|i: int|
                        0 <= i < closed.destroyed@.len() && (#[trigger] closed.destroyed@[i]).0
                            == identity(old(self).connection(), p, old(self).known_proxies@[p])
                &&& forall|i: int|
                    0 <= i < closed.destroyed@.len() ==> {
                        &&& old(self).known_proxies.is_alive_spec(
                            (#[trigger] closed.destroyed@[i]).0,
                        )
                        &&& closed.destroyed@[i].1
                            == old(self).known_proxies@[closed.destroyed@[i].0.ptr].data
                    }
                &&& forall|i: int, j: int|
                    0 <= i < j < closed.destroyed@.len() ==> !(
                    #[trigger] closed.destroyed@[i]).0.same_object(
                        &(#[trigger] closed.destroyed@[j]).0,
                    )
            },
    {
        if self.state.last_error.is_some() {
            Some(self.teardown())
        } else {
            None
        }
    }
}

impl InnerObjectId {
    /// The identity of the live object at a handle, which must be of the
    /// interface that the caller expects. Fails exactly when no live object
    /// of that interface has the handle.
    pub fn from_ptr<D>(backend: &InnerBackend<D>, interface: InterfaceId, ptr: u64) -> (r: Result<
        InnerObjectId,
        InvalidId,
    >)
        requires
            backend.wf(),
        ensures
            match r {
                Ok(id) => backend.is_live(id) && id.ptr == ptr && id.interface == interface,
                Err(_) => forall|id: InnerObjectId|
                    backend.is_live(id) && id.ptr == ptr ==> id.interface != interface,
            },
    {
        if ptr == DISPLAY_HANDLE {
            let d = backend.state.display_id;
            if d.interface == interface {
                return Ok(d);
            }
            return Err(InvalidId);
        }
        match backend.known_proxies.lookup(ptr) {
            Some(e) => {
                if e.interface == interface {
                    Ok(
                        InnerObjectId {
                            connection: backend.known_proxies.connection_number(),
                            id: e.id,
                            ptr,
                            alive: Some(e.alive),
                            interface,
                        },
                    )
                } else {
                    Err(InvalidId)
                }
            },
            None => Err(InvalidId),
        }
    }

    /// The handle of the object, or the null handle where the identity is
    /// managed and its object is gone.
    pub fn as_ptr<D>(&self, backend: &InnerBackend<D>) -> (p: u64)
        ensures
            p == if self.is_managed() && !backend.is_live(*self) {
                0
            } else {
                self.ptr
            },
    {
        if self.alive.is_some() && !backend.is_alive(self) {
            0
        } else {
            self.ptr
        }
    }
}

} // verus!
