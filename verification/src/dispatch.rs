//! Dispatching events: the message at the head of the queue is read against
//! the interface of the object that it is for, its arguments are resolved
//! against the object table, and the objects that it creates and retires
//! are entered and removed.
//!
//! The connection never calls a handler. It hands out the message and says
//! what else is to be done; whoever drives the connection calls the handler
//! and hands back what the handler returned.

use crate::backend::{InnerBackend, DISPLAY_ID, SERVER_ID_BASE};
use crate::bytes::copy_bytes;
use crate::message::{ArgList, Argument, ArgumentView, Message};
use crate::object_id::{InnerObjectId, InterfaceId, ANONYMOUS_INTERFACE};
use crate::protocol::{count_objects, ArgumentType, MessageDesc};
use crate::request::{lemma_count_objects_take, Misuse};
use crate::state::{ViolationKind, WaylandError};
use crate::table::{
    evolves, has_id, identity, is_alive_in, is_full, lemma_evolves_refl, lowest_free_handle,
    ProxyUserData,
};
use crate::wire::{
    args_fds, decode_args, decode_body, wire_args_fit, wire_views, WireArg, WireArgView,
};
use vstd::prelude::*;

verus! {

/// An event that is ready for its handler.
#[derive(Debug)]
pub struct Event {
    /// The message: the identity of the object that it is for, its opcode
    /// and its arguments.
    pub message: Message,
    /// The object that the event has created. It waits for the handler that
    /// the handler of the event is to return.
    pub created: Option<InnerObjectId>,
    /// Whether the event retires the object that it is for, once its
    /// handler has returned.
    pub is_destructor: bool,
}

/// What dispatching one message has come to.
#[derive(Debug)]
pub enum Dispatched {
    /// The queue was empty.
    Idle,
    /// The message was for an object that is not in the table, and was
    /// dropped.
    Dropped,
    /// The message is ready for the handler of its object.
    Event(Event),
}

/// What becomes of the message at the head of the queue.
#[derive(Clone, Copy, Debug, PartialEq, Eq, Structural)]
pub enum EventVerdict {
    /// The connection has a sticky error; nothing is dispatched.
    Failed(WaylandError),
    /// The queue is empty.
    Idle,
    /// The message is for an object that is not in the table.
    Dropped,
    /// The message violates the protocol.
    Violation(ViolationKind),
    /// The message is handed out.
    Deliver,
}

/// The number of the object that a wire argument creates, and the version
/// that was written with it, where one was.
pub open spec fn new_object(w: WireArgView) -> Option<(u32, Option<u32>)> {
    match w {
        WireArgView::NewId(n) => if n != 0 {
            Some((n, None))
        } else {
            None
        },
        WireArgView::NewIdGeneric { name, version, id } => if id != 0 {
            Some((id, Some(version)))
        } else {
            None
        },
        _ => None,
    }
}

/// The version that the object speaks that an event creates: the one that
/// was written with it, or else the version of the object that the event is
/// for.
pub open spec fn child_version(wire: Seq<WireArgView>, parent_version: u32) -> u32 {
    match created_object(wire) {
        Some((_, Some(v))) => v,
        _ => parent_version,
    }
}

/// The first object that the arguments of an event create.
pub open spec fn created_object(wire: Seq<WireArgView>) -> Option<(u32, Option<u32>)>
    decreases wire.len(),
{
    if wire.len() == 0 {
        None
    } else {
        match created_object(wire.drop_last()) {
            Some(c) => Some(c),
            None => new_object(wire.last()),
        }
    }
}

impl<D> InnerBackend<D> {
    /// Whether a live object of the connection has the given wire number.
    pub open spec fn has_object(&self, n: u32) -> bool {
        n == DISPLAY_ID || has_id(self.known_proxies@, n)
    }

    /// The handle of the object of the table with a wire number.
    pub open spec fn handle_of(&self, n: u32) -> u64 {
        choose|p: u64| #[trigger]
            self.known_proxies@.contains_key(p) && self.known_proxies@[p].id == n
    }

    /// The identity of the live object with a wire number.
    pub open spec fn object_with_id(&self, n: u32) -> InnerObjectId {
        if n == DISPLAY_ID {
            self.state.display_id
        } else {
            identity(self.connection(), self.handle_of(n), self.known_proxies@[self.handle_of(n)])
        }
    }

    /// What an argument of an event violates, if anything: an object must
    /// exist and be of the interface that the description gives, and a new
    /// object must have a number of the server's that is free, and there
    /// must be room for it.
    pub open spec fn event_arg_violation(&self, w: WireArgView, declared: InterfaceId) -> Option<
        ViolationKind,
    > {
        match w {
            WireArgView::Object(n) => if n == 0 {
                None
            } else if !self.has_object(n) {
                Some(ViolationKind::UnknownObject)
            } else if self.object_with_id(n).interface != declared {
                Some(ViolationKind::WrongInterface)
            } else {
                None
            },
            _ => match new_object(w) {
                Some((n, _)) => if n < SERVER_ID_BASE || has_id(self.known_proxies@, n)
                    || self.known_proxies.next_cell() == u64::MAX || is_full(
                    self.known_proxies@,
                ) {
                    Some(ViolationKind::BadNewId)
                } else {
                    None
                },
                None => None,
            },
        }
    }

    /// What the argument at a position violates, if anything.
    pub open spec fn violation_at(&self, desc: MessageDesc, wire: Seq<WireArgView>, i: int) -> Option<
        ViolationKind,
    > {
        self.event_arg_violation(
            wire[i],
            desc.arg_interfaces@[count_objects(desc.signature@.take(i)) as int],
        )
    }

    /// The first violation among the first `n` arguments of an event.
    pub open spec fn first_violation(&self, desc: MessageDesc, wire: Seq<WireArgView>, n: nat) -> Option<
        ViolationKind,
    >
        decreases n,
    {
        if n == 0 {
            None
        } else {
            match self.first_violation(desc, wire, (n - 1) as nat) {
                Some(v) => Some(v),
                None => self.violation_at(desc, wire, n - 1),
            }
        }
    }

    /// The entry of the object that the message at the head of the queue is
    /// for.
    pub open spec fn target(&self) -> ProxyUserData<D> {
        self.known_proxies@[self.handle_of(self.queue@[0].sender)]
    }

    /// The description of the event at the head of the queue.
    pub open spec fn event_desc(&self) -> MessageDesc {
        self.registry@[self.target().interface as int].events@[self.queue@[0].opcode as int]
    }

    /// The arguments of the event at the head of the queue, as read from
    /// its body and from the descriptors that wait.
    pub open spec fn event_wire(&self) -> Option<Seq<WireArgView>> {
        decode_args(
            self.event_desc().signature@,
            self.event_desc().child_interface is None,
            self.queue@[0].body@,
            self.incoming_fds@,
        )
    }

    /// What becomes of the message at the head of the queue.
    pub open spec fn event_verdict(&self) -> EventVerdict {
        if self.state.last_error is Some {
            EventVerdict::Failed(self.state.last_error->0)
        } else if self.queue@.len() == 0 {
            EventVerdict::Idle
        } else if !has_id(self.known_proxies@, self.queue@[0].sender) {
            EventVerdict::Dropped
        } else if self.queue@[0].opcode >= self.registry@[self.target().interface as int].events@.len() {
            EventVerdict::Violation(ViolationKind::UnknownOpcode)
        } else {
            match self.event_wire() {
                None => EventVerdict::Violation(ViolationKind::MalformedArguments),
                Some(wire) => match self.first_violation(self.event_desc(), wire, wire.len()) {
                    Some(v) => EventVerdict::Violation(v),
                    None => EventVerdict::Deliver,
                },
            }
        }
    }

    /// The identity of the object that an event creates: it has the number
    /// that the event gives, takes the lowest free handle and the next
    /// liveness cell, and has the interface that the description fixes, or
    /// the anonymous one.
    pub open spec fn child_for(&self, desc: MessageDesc, wire: Seq<WireArgView>) -> Option<
        InnerObjectId,
    > {
        match created_object(wire) {
            Some((n, _)) => Some(
                InnerObjectId {
                    connection: self.connection(),
                    id: n,
                    ptr: lowest_free_handle(self.known_proxies@),
                    alive: Some(self.known_proxies.next_cell()),
                    interface: match desc.child_interface {
                        Some(i) => i,
                        None => ANONYMOUS_INTERFACE,
                    },
                },
            ),
            None => None,
        }
    }

    /// A wire argument as the handler gets it: the number of an object
    /// becomes the identity of the live object of that number, and the
    /// number of a new object the identity of the object that was created.
    pub open spec fn resolve_arg(&self, w: WireArgView, child: InnerObjectId) -> ArgumentView {
        match w {
            WireArgView::Int(i) => ArgumentView::Int(i),
            WireArgView::Uint(u) => ArgumentView::Uint(u),
            WireArgView::Fixed(f) => ArgumentView::Fixed(f),
            WireArgView::Str(s) => ArgumentView::Str(s),
            WireArgView::Object(n) => ArgumentView::Object(
                if n == 0 {
                    InnerObjectId::null_spec()
                } else {
                    self.object_with_id(n)
                },
            ),
            WireArgView::NewId(n) => ArgumentView::NewId(
                if n == 0 {
                    InnerObjectId::null_spec()
                } else {
                    child
                },
            ),
            WireArgView::NewIdGeneric { name, version, id } => ArgumentView::NewId(
                if id == 0 {
                    InnerObjectId::null_spec()
                } else {
                    child
                },
            ),
            WireArgView::Array(a) => ArgumentView::Array(a),
            WireArgView::Fd(h) => ArgumentView::Fd(h),
        }
    }

    /// The arguments of an event as its handler gets them.
    pub open spec fn args_for(&self, desc: MessageDesc, wire: Seq<WireArgView>) -> Seq<
        ArgumentView,
    > {
        let child = match self.child_for(desc, wire) {
            Some(c) => c,
            None => InnerObjectId::null_spec(),
        };
        wire.map_values(|w: WireArgView| self.resolve_arg(w, child))
    }

    /// The identity of the object that the event at the head of the queue
    /// creates.
    pub open spec fn event_child(&self) -> Option<InnerObjectId> {
        self.child_for(self.event_desc(), self.event_wire()->0)
    }

    /// The version that the object speaks that the event at the head of the
    /// queue creates: the one that was written with it, or else the version
    /// of the object that the event is for.
    pub open spec fn event_child_version(&self) -> u32 {
        child_version(self.event_wire()->0, self.target().version)
    }

    /// The arguments of the event at the head of the queue, as its handler
    /// gets them.
    pub open spec fn event_args(&self) -> Seq<ArgumentView> {
        self.args_for(self.event_desc(), self.event_wire()->0)
    }

    /// What handing out the event at the head of the queue does to a
    /// connection: the message leaves the queue, its descriptors leave
    /// those that wait, and the object that it creates enters the table,
    /// without a handler.
    pub open spec fn delivered_as(&self, event: Event, after: Self) -> bool {
        let sender = self.handle_of(self.queue@[0].sender);
        &&& event.message.sender_id == identity(
            self.connection(),
            sender,
            self.known_proxies@[sender],
        )
        &&& event.message.opcode == self.queue@[0].opcode
        &&& event.message.args@ == self.event_args()
        &&& event.created == self.event_child()
        &&& event.is_destructor == self.event_desc().is_destructor
        &&& after.queue@ == self.queue@.skip(1)
        &&& after.incoming_fds@ == self.incoming_fds@.skip(
            args_fds(self.event_wire()->0).len() as int,
        )
        &&& match self.event_child() {
            Some(child) => {
                &&& crate::table::is_lowest_free(self.known_proxies@, child.ptr)
                &&& after.known_proxies@ == self.known_proxies@.insert(
                    child.ptr,
                    ProxyUserData {
                        id: child.id,
                        version: self.event_child_version(),
                        alive: self.known_proxies.next_cell(),
                        interface: child.interface,
                        data: None,
                    },
                )
                &&& after.known_proxies.next_cell() == self.known_proxies.next_cell() + 1
            },
            None => {
                &&& after.known_proxies@ == self.known_proxies@
                &&& after.known_proxies.next_cell() == self.known_proxies.next_cell()
            },
        }
        &&& after.connection() == self.connection()
        &&& after.registry == self.registry
        &&& after.state == self.state
        &&& after.next_id == self.next_id
        &&& after.outgoing == self.outgoing
        &&& after.outgoing_fds == self.outgoing_fds
        &&& after.incoming == self.incoming
        &&& after.reader == self.reader
        &&& after.next_ticket == self.next_ticket
    }

    /// What dropping the message at the head of the queue does to a
    /// connection, where the message is not handed out: it leaves the
    /// queue, and a violation becomes the sticky error.
    pub open spec fn dropped_as(&self, violation: Option<ViolationKind>, after: Self) -> bool {
        &&& after.queue@ == self.queue@.skip(1)
        &&& after.state == match violation {
            Some(code) => crate::state::ConnectionState {
                last_error: Some(
                    WaylandError::Protocol(
                        crate::state::ProtocolError {
                            code,
                            object_id: self.queue@[0].sender,
                            object_interface: self.target().interface,
                        },
                    ),
                ),
                protocol_error: crate::state::ProtocolError {
                    code,
                    object_id: self.queue@[0].sender,
                    object_interface: self.target().interface,
                },
                ..self.state
            },
            None => self.state,
        }
        &&& after.registry == self.registry
        &&& after.known_proxies == self.known_proxies
        &&& after.next_id == self.next_id
        &&& after.outgoing == self.outgoing
        &&& after.outgoing_fds == self.outgoing_fds
        &&& after.incoming == self.incoming
        &&& after.incoming_fds == self.incoming_fds
        &&& after.reader == self.reader
        &&& after.next_ticket == self.next_ticket
    }

    /// The wire numbers of the table's objects are unique, so the object
    /// found for a number is the object of that number.
    pub proof fn lemma_handle_of(&self, p: u64)
        requires
            self.known_proxies.wf(),
            self.known_proxies@.contains_key(p),
        ensures
            self.handle_of(self.known_proxies@[p].id) == p,
            has_id(self.known_proxies@, self.known_proxies@[p].id),
    {
        let q = self.handle_of(self.known_proxies@[p].id);
        assert(self.known_proxies@.contains_key(q));
    }

    /// The identity of the live object with a wire number, if there is one.
    pub fn find_object(&self, n: u32) -> (r: Option<InnerObjectId>)
        requires
            self.wf(),
        ensures
            r is Some <==> self.has_object(n),
            r matches Some(oid) ==> oid == self.object_with_id(n) && self.is_live(oid) && oid.id
                == n,
    {
        if n == DISPLAY_ID {
            return Some(self.state.display_id);
        }
        match self.known_proxies.find(n) {
            Some(p) => {
                proof {
                    self.lemma_handle_of(p);
                }
                match self.known_proxies.lookup(p) {
                    Some(e) => Some(
                        InnerObjectId {
                            connection: self.known_proxies.connection_number(),
                            id: e.id,
                            ptr: p,
                            alive: Some(e.alive),
                            interface: e.interface,
                        },
                    ),
                    None => None,
                }
            },
            None => None,
        }
    }
}

/// Once an event is known to create an object, more arguments do not
/// change which.
pub proof fn lemma_created_stays(wire: Seq<WireArgView>, n: int)
    requires
        0 <= n <= wire.len(),
        created_object(wire.take(n)) is Some,
    ensures
        created_object(wire) == created_object(wire.take(n)),
    decreases wire.len() - n,
{
    if n < wire.len() {
        assert(wire.take(n + 1).drop_last() =~= wire.take(n));
        lemma_created_stays(wire, n + 1);
    } else {
        assert(wire.take(n) =~= wire);
    }
}

fn drop_front(v: &mut Vec<i32>, n: usize)
    requires
        n <= old(v)@.len(),
    ensures
        final(v)@ == old(v)@.skip(n as int),
{
    let mut rest: Vec<i32> = Vec::new();
    let mut i: usize = n;
    while i < v.len()
        invariant
            n <= i <= v.len(),
            v@ == old(v)@,
            rest@ == v@.subrange(n as int, i as int),
        decreases v.len() - i,
    {
        rest.push(v[i]);
        assert(rest@ =~= v@.subrange(n as int, i + 1));
        i = i + 1;
    }
    assert(rest@ =~= old(v)@.skip(n as int));
    *v = rest;
}

/// What resolving the arguments of an event gives.
struct Resolved {
    args: ArgList,
    created: Option<InnerObjectId>,
    version: u32,
    fds: usize,
}

impl<D> InnerBackend<D> {
    /// Resolves the arguments of an event against the table, without
    /// changing it.
    fn resolve_event(&self, desc: &MessageDesc, wire: &Vec<WireArg>, parent_version: u32) -> (r:
        Result<Resolved, ViolationKind>)
        requires
            self.wf(),
            crate::protocol::desc_valid(*desc, self.registry@.len()),
            wire_args_fit(wire_views(wire@), desc.signature@, desc.child_interface is None),
        ensures
            match r {
                Ok(res) => {
                    &&& self.first_violation(*desc, wire_views(wire@), wire@.len()) is None
                    &&& res.args@ == self.args_for(*desc, wire_views(wire@))
                    &&& res.created == self.child_for(*desc, wire_views(wire@))
                    &&& res.version == child_version(wire_views(wire@), parent_version)
                    &&& res.fds == args_fds(wire_views(wire@)).len()
                    &&& res.created matches Some(c) ==> {
                        &&& crate::table::is_lowest_free(self.known_proxies@, c.ptr)
                        &&& c.id >= SERVER_ID_BASE
                        &&& !has_id(self.known_proxies@, c.id)
                        &&& self.known_proxies.next_cell() != u64::MAX
                        &&& !is_full(self.known_proxies@)
                        &&& c.interface < self.registry@.len()
                    }
                },
                Err(v) => self.first_violation(*desc, wire_views(wire@), wire@.len()) == Some(v),
            },
    {
        let ghost views = wire_views(wire@);
        let ghost child = match self.child_for(*desc, views) {
            Some(c) => c,
            None => InnerObjectId::null_spec(),
        };
        let child_interface = match desc.child_interface {
            Some(i) => i,
            None => ANONYMOUS_INTERFACE,
        };
        let mut args = ArgList::new();
        let mut created: Option<InnerObjectId> = None;
        let mut version: u32 = parent_version;
        let mut fds: usize = 0;
        let mut k: usize = 0;
        let mut i: usize = 0;
        assert(views.take(0) =~= Seq::<WireArgView>::empty());
        assert(desc.signature@.take(0) =~= Seq::<ArgumentType>::empty());
        while i < wire.len()
            invariant
                i <= wire.len(),
                self.wf(),
                views == wire_views(wire@),
                crate::protocol::desc_valid(*desc, self.registry@.len()),
                wire_args_fit(views, desc.signature@, desc.child_interface is None),
                child_interface == match desc.child_interface {
                    Some(i) => i,
                    None => ANONYMOUS_INTERFACE,
                },
                child == match self.child_for(*desc, views) {
                    Some(c) => c,
                    None => InnerObjectId::null_spec(),
                },
                k == count_objects(desc.signature@.take(i as int)),
                fds == args_fds(views.take(i as int)).len(),
                fds <= i,
                self.first_violation(*desc, views, i as nat) is None,
                wire.len() <= crate::protocol::MAX_ARGS,
                args@.len() == i,
                forall|j: int| 0 <= j < i ==> #[trigger] args@[j] == self.resolve_arg(views[j], child),
                (created is Some) == (created_object(views.take(i as int)) is Some),
                created matches Some(c) ==> {
                    &&& self.child_for(*desc, views) == Some(c)
                    &&& crate::table::is_lowest_free(self.known_proxies@, c.ptr)
                    &&& c.id >= SERVER_ID_BASE
                    &&& !has_id(self.known_proxies@, c.id)
                    &&& self.known_proxies.next_cell() != u64::MAX
                    &&& !is_full(self.known_proxies@)
                },
                version == child_version(views.take(i as int), parent_version),
            decreases wire.len() - i,
        {
            let w = &wire[i];
            proof {
                assert(w@ == views[i as int]);
                assert(views.take(i + 1).drop_last() =~= views.take(i as int));
                assert(views.take(i + 1).last() == views[i as int]);
                lemma_count_objects_take(desc.signature@, i as int);
                lemma_count_objects_take(desc.signature@, i + 1);
                assert(crate::wire::wire_arg_fits(
                    views[i as int],
                    desc.signature@[i as int],
                    desc.child_interface is None,
                ));
            }
            let ghost args_before = args@;
            match w {
                WireArg::Int(x) => {
                    args.push(Argument::Int(*x));
                },
                WireArg::Uint(x) => {
                    args.push(Argument::Uint(*x));
                },
                WireArg::Fixed(x) => {
                    args.push(Argument::Fixed(*x));
                },
                WireArg::Str(None) => {
                    args.push(Argument::Str(None));
                },
                WireArg::Str(Some(b)) => {
                    args.push(Argument::Str(Some(copy_bytes(b))));
                },
                WireArg::Array(None) => {
                    args.push(Argument::Array(None));
                },
                WireArg::Array(Some(b)) => {
                    args.push(Argument::Array(Some(copy_bytes(b))));
                },
                WireArg::Fd(h) => {
                    fds = fds + 1;
                    args.push(Argument::Fd(*h));
                },
                WireArg::Object(n) => {
                    let declared_len = desc.arg_interfaces.len();
                    assert(k < declared_len);
                    let declared = desc.arg_interfaces[k];
                    k = k + 1;
                    if *n == 0 {
                        args.push(Argument::Object(Self::null_id()));
                    } else {
                        match self.find_object(*n) {
                            None => {
                                proof {
                                    self.lemma_violation_found(*desc, views, i as int);
                                }
                                return Err(ViolationKind::UnknownObject);
                            },
                            Some(o) => {
                                if o.interface != declared {
                                    proof {
                                        self.lemma_violation_found(*desc, views, i as int);
                                    }
                                    return Err(ViolationKind::WrongInterface);
                                }
                                args.push(Argument::Object(o));
                            },
                        }
                    }
                },
                WireArg::NewId(n) => {
                    if *n == 0 {
                        args.push(Argument::NewId(Self::null_id()));
                    } else {
                        if *n < SERVER_ID_BASE || self.known_proxies.find(*n).is_some()
                            || !self.known_proxies.has_room() {
                            proof {
                                self.lemma_violation_found(*desc, views, i as int);
                            }
                            return Err(ViolationKind::BadNewId);
                        }
                        let c = match created {
                            Some(c) => c,
                            None => {
                                let c = InnerObjectId {
                                    connection: self.known_proxies.connection_number(),
                                    id: *n,
                                    ptr: self.known_proxies.next_handle(),
                                    alive: Some(self.known_proxies.upcoming_cell()),
                                    interface: child_interface,
                                };
                                proof {
                                    lemma_created_stays(views, i + 1);
                                }
                                created = Some(c);
                                c
                            },
                        };
                        args.push(Argument::NewId(c));
                    }
                },
                WireArg::NewIdGeneric { name, version: v, id } => {
                    if *id == 0 {
                        args.push(Argument::NewId(Self::null_id()));
                    } else {
                        if *id < SERVER_ID_BASE || self.known_proxies.find(*id).is_some()
                            || !self.known_proxies.has_room() {
                            proof {
                                self.lemma_violation_found(*desc, views, i as int);
                            }
                            return Err(ViolationKind::BadNewId);
                        }
                        let c = match created {
                            Some(c) => c,
                            None => {
                                let c = InnerObjectId {
                                    connection: self.known_proxies.connection_number(),
                                    id: *id,
                                    ptr: self.known_proxies.next_handle(),
                                    alive: Some(self.known_proxies.upcoming_cell()),
                                    interface: child_interface,
                                };
                                proof {
                                    lemma_created_stays(views, i + 1);
                                }
                                created = Some(c);
                                version = *v;
                                c
                            },
                        };
                        args.push(Argument::NewId(c));
                    }
                },
            }
            assert(args@ == args_before.push(self.resolve_arg(views[i as int], child)));
            assert(self.violation_at(*desc, views, i as int) is None);
            i = i + 1;
        }
        assert(views.take(i as int) =~= views);
        assert(args@ =~= self.args_for(*desc, views));
        proof {
            if created is Some {
                assert(desc.child_interface matches Some(ci) ==> ci < self.registry@.len());
            }
        }
        Ok(Resolved { args, created, version, fds })
    }

    /// Where the first violation among the first `i` arguments is none and
    /// the argument at `i` has one, that one is the first violation of all.
    proof fn lemma_violation_found(&self, desc: MessageDesc, wire: Seq<WireArgView>, i: int)
        requires
            0 <= i < wire.len(),
            self.first_violation(desc, wire, i as nat) is None,
            self.violation_at(desc, wire, i) is Some,
        ensures
            self.first_violation(desc, wire, wire.len()) == self.violation_at(desc, wire, i),
    {
        self.lemma_violation_stays(desc, wire, (i + 1) as nat, wire.len());
    }

    proof fn lemma_violation_stays(&self, desc: MessageDesc, wire: Seq<WireArgView>, n: nat, m: nat)
        requires
            n <= m,
            self.first_violation(desc, wire, n) is Some,
        ensures
            self.first_violation(desc, wire, m) == self.first_violation(desc, wire, n),
        decreases m - n,
    {
        if n < m {
            self.lemma_violation_stays(desc, wire, n, (m - 1) as nat);
        }
    }
}

/// Takes the message at the head of the queue and says what is to be done
/// with it.
///
/// Where the connection has a sticky error, that error is returned and
/// nothing changes; nor does anything where the queue is empty. A message
/// for an object that is not in the table is dropped. A message that
/// violates the protocol is dropped too, and the violation becomes the
/// sticky error of the connection and is returned. Any other message is
/// handed out with its arguments resolved, as
/// [`InnerBackend::delivered_as`] says.
pub fn dispatcher_func<D>(backend: &mut InnerBackend<D>) -> (r: Result<Dispatched, WaylandError>)
    requires
        old(backend).wf(),
    ensures
        final(backend).wf(),
        match old(backend).event_verdict() {
            EventVerdict::Failed(e) => r matches Err(err) && err == e && *final(backend) == *old(
                backend,
            ),
            EventVerdict::Idle => r matches Ok(Dispatched::Idle) && *final(backend) == *old(
                backend,
            ),
            EventVerdict::Dropped => r matches Ok(Dispatched::Dropped) && old(backend).dropped_as(
                None,
                *final(backend),
            ),
            EventVerdict::Violation(v) => r matches Err(err) && final(backend).state.last_error
                == Some(err) && old(backend).dropped_as(Some(v), *final(backend)),
            EventVerdict::Deliver => r matches Ok(Dispatched::Event(event)) && old(
                backend,
            ).delivered_as(event, *final(backend)),
        },
        evolves(
            old(backend).known_proxies@,
            old(backend).known_proxies.next_cell(),
            final(backend).known_proxies@,
            final(backend).known_proxies.next_cell(),
        ),
{
    proof {
        lemma_evolves_refl(backend.known_proxies@, backend.known_proxies.next_cell());
    }
    if let Err(e) = backend.state.no_last_error() {
        return Err(e);
    }
    if backend.queue.len() == 0 {
        return Ok(Dispatched::Idle);
    }
    let frame = match backend.queue.pop_front() {
        Some(f) => f,
        None => {
            return Ok(Dispatched::Idle);
        },
    };
    assert(backend.queue@ =~= old(backend).queue@.skip(1));
    assert(frame == old(backend).queue@[0]);
    let ptr = match backend.known_proxies.find(frame.sender) {
        Some(p) => p,
        None => {
            return Ok(Dispatched::Dropped);
        },
    };
    proof {
        old(backend).lemma_handle_of(ptr);
    }
    let (interface, parent_version, cell) = match backend.known_proxies.lookup(ptr) {
        Some(e) => (e.interface, e.version, e.alive),
        None => {
            return Ok(Dispatched::Dropped);
        },
    };
    let sender_id = InnerObjectId {
        connection: backend.known_proxies.connection_number(),
        id: frame.sender,
        ptr,
        alive: Some(cell),
        interface,
    };
    assert(old(backend).target() == old(backend).known_proxies@[ptr]);
    let iface = match backend.registry.get(interface) {
        Some(i) => i,
        None => {
            return Ok(Dispatched::Dropped);
        },
    };
    if frame.opcode as usize >= iface.events.len() {
        let err = backend.state.violation(ViolationKind::UnknownOpcode, frame.sender, interface);
        return Err(err);
    }
    let desc = &iface.events[frame.opcode as usize];
    assert(*desc == old(backend).event_desc());
    let generic = desc.child_interface.is_none();
    let wire = match decode_body(&desc.signature, generic, &frame.body, &backend.incoming_fds) {
        Some(w) => w,
        None => {
            let err = backend.state.violation(
                ViolationKind::MalformedArguments,
                frame.sender,
                interface,
            );
            return Err(err);
        },
    };
    let ghost views = wire_views(wire@);
    proof {
        assert(old(backend).event_wire() == Some(views));
        crate::wire::lemma_decoded_args_fit(
            desc.signature@,
            generic,
            frame.body@,
            backend.incoming_fds@,
        );
        crate::wire::lemma_decoded_fds(desc.signature@, generic, frame.body@, backend.incoming_fds@);
        assert(crate::protocol::interface_valid(
            backend.registry@[interface as int],
            backend.registry@.len(),
        ));
        old(backend).lemma_same_objects(*backend, *desc, views);
    }
    let is_destructor = desc.is_destructor;
    let resolved = match backend.resolve_event(desc, &wire, parent_version) {
        Ok(r) => r,
        Err(v) => {
            let err = backend.state.violation(v, frame.sender, interface);
            return Err(err);
        },
    };
    let Resolved { args, created, version, fds } = resolved;
    drop_front(&mut backend.incoming_fds, fds);
    if let Some(c) = created {
        let registered = backend.known_proxies.register(c.id, version, c.interface, None);
        assert(registered == Some(c));
        assert forall|p: u64| #[trigger] backend.known_proxies@.contains_key(p) implies {
            &&& backend.known_proxies@[p].interface < backend.registry@.len()
            &&& backend.known_proxies@[p].id != DISPLAY_ID
            &&& backend.known_proxies@[p].id < SERVER_ID_BASE ==> backend.known_proxies@[p].id
                < backend.next_id
        } by {
            if p != c.ptr {
                assert(old(backend).known_proxies@.contains_key(p));
            }
        }
    }
    Ok(
        Dispatched::Event(
            Event {
                message: Message { sender_id, opcode: frame.opcode, args },
                created,
                is_destructor,
            },
        ),
    )
}

impl<D> InnerBackend<D> {
    /// What the arguments of an event resolve to depends on the objects of
    /// the connection alone.
    proof fn lemma_same_objects(&self, other: Self, desc: MessageDesc, wire: Seq<WireArgView>)
        requires
            self.known_proxies == other.known_proxies,
            self.state.display_id == other.state.display_id,
        ensures
            self.first_violation(desc, wire, wire.len()) == other.first_violation(
                desc,
                wire,
                wire.len(),
            ),
            self.args_for(desc, wire) == other.args_for(desc, wire),
            self.child_for(desc, wire) == other.child_for(desc, wire),
    {
        self.lemma_same_violations(other, desc, wire, wire.len());
        assert forall|n: u32| self.object_with_id(n) == other.object_with_id(n) by {}
        assert(self.args_for(desc, wire) =~= other.args_for(desc, wire));
    }

    proof fn lemma_same_violations(
        &self,
        other: Self,
        desc: MessageDesc,
        wire: Seq<WireArgView>,
        n: nat,
    )
        requires
            self.known_proxies == other.known_proxies,
            self.state.display_id == other.state.display_id,
        ensures
            self.first_violation(desc, wire, n) == other.first_violation(desc, wire, n),
        decreases n,
    {
        if n > 0 {
            self.lemma_same_violations(other, desc, wire, (n - 1) as nat);
        }
    }

    /// Begins a batch with the messages that wait to be dispatched, or
    /// fails with the sticky error of the connection.
    pub fn dispatch_inner_queue(&self) -> (r: Result<Batch, WaylandError>)
        ensures
            match r {
                Ok(batch) => self.state.last_error is None && batch.remaining == self.queue@.len(),
                Err(e) => self.state.last_error == Some(e),
            },
    {
        Dispatcher.dispatch_pending(self)
    }

    /// Retires an object once its destructor has been handled: where the
    /// identity denotes a live object of the table, its entry is removed
    /// and returned, so that the handler can be told; else nothing changes
    /// and `None` is returned. An object is thus retired once at most.
    pub fn destroy_object(&mut self, id: InnerObjectId) -> (r: Option<ProxyUserData<D>>)
        requires
            old(self).wf(),
        ensures
            final(self).wf(),
            final(self).same_but_objects(*old(self)),
            final(self).known_proxies.next_cell() == old(self).known_proxies.next_cell(),
            !final(self).known_proxies.is_alive_spec(id),
            old(self).known_proxies.is_alive_spec(id) ==> r == Some(old(self).known_proxies@[id.ptr])
                && final(self).known_proxies@ == old(self).known_proxies@.remove(id.ptr),
            !old(self).known_proxies.is_alive_spec(id) ==> r is None && final(self).known_proxies@
                == old(self).known_proxies@,
            evolves(
                old(self).known_proxies@,
                old(self).known_proxies.next_cell(),
                final(self).known_proxies@,
                final(self).known_proxies.next_cell(),
            ),
    {
        if !self.known_proxies.is_alive(&id) {
            proof {
                lemma_evolves_refl(self.known_proxies@, self.known_proxies.next_cell());
            }
            return None;
        }
        let r = self.known_proxies.invalidate(id.ptr);
        assert forall|p: u64| #[trigger] self.known_proxies@.contains_key(p) implies old(
            self,
        ).known_proxies@.contains_key(p) by {}
        r
    }
}

/// The part of a connection that dispatches.
#[derive(Debug)]
pub struct Dispatcher;

/// A batch of messages to dispatch: those that waited when the batch began.
/// Messages that arrive while the batch is dispatched are left to the next
/// batch, so that a batch comes to an end whatever the handlers do.
#[derive(Debug)]
pub struct Batch {
    /// Number of messages that the batch has still to take from the queue.
    pub remaining: usize,
}

impl Dispatcher {
    /// Begins a batch with the messages that wait to be dispatched, or
    /// fails with the sticky error of the connection.
    pub fn dispatch_pending<D>(&self, backend: &InnerBackend<D>) -> (r: Result<Batch, WaylandError>)
        ensures
            match r {
                Ok(batch) => backend.state.last_error is None && batch.remaining
                    == backend.queue@.len(),
                Err(e) => backend.state.last_error == Some(e),
            },
    {
        match backend.state.no_last_error() {
            Ok(()) => Ok(Batch { remaining: backend.queue.len() }),
            Err(e) => Err(e),
        }
    }
}

impl Batch {
    /// Takes the next message of the batch from the queue, as
    /// [`dispatcher_func`] says, or returns `None`, and changes nothing,
    /// where the batch is done. A batch is done as well once the connection
    /// has a sticky error or the queue is empty.
    pub fn next<D>(&mut self, backend: &mut InnerBackend<D>) -> (r: Option<
        Result<Dispatched, WaylandError>,
    >)
        requires
            old(backend).wf(),
        ensures
            final(backend).wf(),
            old(self).remaining == 0 ==> r is None && *final(backend) == *old(backend)
                && final(self).remaining == 0,
            old(self).remaining > 0 ==> r is Some && match old(backend).event_verdict() {
                EventVerdict::Failed(e) => {
                    &&& r matches Some(Err(err)) && err == e
                    &&& *final(backend) == *old(backend)
                    &&& final(self).remaining == 0
                },
                EventVerdict::Idle => {
                    &&& r matches Some(Ok(Dispatched::Idle))
                    &&& *final(backend) == *old(backend)
                    &&& final(self).remaining == 0
                },
                EventVerdict::Dropped => {
                    &&& r matches Some(Ok(Dispatched::Dropped))
                    &&& old(backend).dropped_as(None, *final(backend))
                    &&& final(self).remaining == old(self).remaining - 1
                },
                EventVerdict::Violation(v) => {
                    &&& r matches Some(Err(err)) && final(backend).state.last_error == Some(err)
                    &&& old(backend).dropped_as(Some(v), *final(backend))
                    &&& final(self).remaining == 0
                },
                EventVerdict::Deliver => {
                    &&& r matches Some(Ok(Dispatched::Event(event))) && old(backend).delivered_as(
                        event,
                        *final(backend),
                    )
                    &&& final(self).remaining == old(self).remaining - 1
                },
            },
            evolves(
                old(backend).known_proxies@,
                old(backend).known_proxies.next_cell(),
                final(backend).known_proxies@,
                final(backend).known_proxies.next_cell(),
            ),
    {
        if self.remaining == 0 {
            proof {
                lemma_evolves_refl(backend.known_proxies@, backend.known_proxies.next_cell());
            }
            return None;
        }
        let step = dispatcher_func(backend);
        match &step {
            Ok(Dispatched::Event(_)) => {
                self.remaining = self.remaining - 1;
            },
            Ok(Dispatched::Dropped) => {
                self.remaining = self.remaining - 1;
            },
            _ => {
                self.remaining = 0;
            },
        }
        Some(step)
    }
}

impl<D> InnerBackend<D> {
    /// Takes note of what the handler of an event has returned: first the
    /// object of a destructor event is retired, if it is still alive, and
    /// its entry returned, so that its handler can be told; then the
    /// handler that was returned for the object that the event has created
    /// is attached to that object, if it is still alive.
    ///
    /// What the handler has returned must fit what the event has created,
    /// as [`check_handler_result`] tells: a handler for the object that was
    /// created, and none where none was.
    pub fn finish_event(
        &mut self,
        sender: InnerObjectId,
        created: Option<InnerObjectId>,
        is_destructor: bool,
        supplied: Option<D>,
    ) -> (destroyed: Option<ProxyUserData<D>>)
        requires
            old(self).wf(),
            handler_misuse(created is Some, supplied is Some) is None,
        ensures
            final(self).wf(),
            final(self).same_but_objects(*old(self)),
            final(self).known_proxies.next_cell() == old(self).known_proxies.next_cell(),
            ({
                let retires = is_destructor && old(self).known_proxies.is_alive_spec(sender);
                let retired = if retires {
                    old(self).known_proxies@.remove(sender.ptr)
                } else {
                    old(self).known_proxies@
                };
                let attaches = created is Some && is_alive_in(
                    old(self).connection(),
                    retired,
                    created->0,
                );
                &&& destroyed == if retires {
                    Some(old(self).known_proxies@[sender.ptr])
                } else {
                    None
                }
                &&& final(self).known_proxies@ == if attaches {
                    retired.insert(
                        created->0.ptr,
                        ProxyUserData { data: supplied, ..retired[created->0.ptr] },
                    )
                } else {
                    retired
                }
            }),
            evolves(
                old(self).known_proxies@,
                old(self).known_proxies.next_cell(),
                final(self).known_proxies@,
                final(self).known_proxies.next_cell(),
            ),
    {
        let destroyed = if is_destructor {
            self.destroy_object(sender)
        } else {
            proof {
                lemma_evolves_refl(self.known_proxies@, self.known_proxies.next_cell());
            }
            None
        };
        let ghost mid = self.known_proxies@;
        proof {
            lemma_evolves_refl(mid, self.known_proxies.next_cell());
        }
        if let (Some(child), Some(data)) = (created, supplied) {
            let _ = self.set_data(child, data);
        }
        proof {
            crate::table::lemma_evolves_trans(
                old(self).known_proxies@,
                old(self).known_proxies.next_cell(),
                mid,
                old(self).known_proxies.next_cell(),
                self.known_proxies@,
                self.known_proxies.next_cell(),
            );
        }
        destroyed
    }
}

/// What is wrong with what the handler of an event has returned, if
/// anything: an event that has created an object owes the handler of that
/// object, and an event that has created none must not return one.
pub open spec fn handler_misuse(created: bool, supplied: bool) -> Option<Misuse> {
    if created && !supplied {
        Some(Misuse::MissingObjectData)
    } else if !created && supplied {
        Some(Misuse::UnexpectedObjectData)
    } else {
        None
    }
}

/// Tells what is wrong with what the handler of an event has returned, if
/// anything. A handler result with something wrong is a defect of the
/// handler, and is not to be handed to [`InnerBackend::finish_event`].
pub fn check_handler_result(created: bool, supplied: bool) -> (r: Option<Misuse>)
    ensures
        r == handler_misuse(created, supplied),
{
    if created && !supplied {
        Some(Misuse::MissingObjectData)
    } else if !created && supplied {
        Some(Misuse::UnexpectedObjectData)
    } else {
        None
    }
}

} // verus!
