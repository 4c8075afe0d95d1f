//! Sending a request: what is checked before anything is written, what is
//! written, and what becomes of the objects.

use crate::backend::{InnerBackend, DISPLAY_ID, SERVER_ID_BASE};
use crate::bytes::{contains_nul, copy_bytes};
use crate::message::{
    arg_items, check_for_signature, signature_matches, Argument, ArgumentView, Message,
};
use crate::object_id::{InnerObjectId, InterfaceId};
use crate::protocol::{count_objects, creates_object, AllowNull, ArgumentType, MessageDesc};
use crate::state::WaylandError;
use crate::table::{is_full, ProxyUserData};
use crate::wire::{
    args_fds, encode_message, message_bytes, message_encodable, wire_views, WireArg, WireArgView,
};
use vstd::prelude::*;

verus! {

/// A request that the protocol description does not allow, or that the
/// connection has no room for. Such a request is a defect of the caller.
#[derive(Clone, Copy, Debug, PartialEq, Eq, Structural)]
pub enum Misuse {
    /// The interface of the sender has no request of that opcode.
    UnknownOpcode,
    /// The arguments have another arity or other kinds than the signature.
    BadSignature,
    /// The request creates an object of a fixed interface, and another one
    /// was asked for.
    WrongChildInterface,
    /// The request creates an object of a fixed interface, and another
    /// version than the sender's was asked for.
    WrongChildVersion,
    /// The interface that was asked for is not in the registry.
    UnknownInterface,
    /// The request creates an object of an interface that the sender
    /// chooses, and none was given.
    MissingChildSpec,
    /// An object argument is of another interface than the signature asks.
    WrongArgInterface,
    /// A null argument stands where the signature allows none.
    NullArgument,
    /// A string, or the name of an interface that is to be written, holds a
    /// NUL.
    BadString,
    /// The message does not fit the size field of the header.
    TooLarge,
    /// A message creates an object, and no handler was given for it.
    MissingObjectData,
    /// A handler was given for an object, and the event has created none.
    UnexpectedObjectData,
    /// No number, handle or liveness cell is left for one more object.
    OutOfObjects,
}

/// What becomes of a request.
#[derive(Clone, Copy, Debug, PartialEq, Eq, Structural)]
pub enum Verdict {
    /// The connection has a sticky error; nothing is sent.
    Failed(WaylandError),
    /// The sender, or an object among the arguments, is not alive.
    InvalidId,
    /// The request is a defect of the caller.
    Misuse(Misuse),
    /// The request is sent.
    Send,
}

/// Why a request was not sent.
#[derive(Clone, Copy, Debug, PartialEq, Eq, Structural)]
pub enum SendError {
    /// The sender, or an object among the arguments, is not alive.
    InvalidId,
    /// The connection has a sticky error.
    Connection(WaylandError),
}

/// What sending a request has done to the objects.
#[derive(Debug)]
pub struct Sent<D> {
    /// The object that the request has created, or the null identity.
    pub child: InnerObjectId,
    /// The entry of the sender, where the request has retired it: its
    /// handler is to be told that the object is gone.
    pub destroyed: Option<ProxyUserData<D>>,
}

/// Whether an object argument counts as null.
pub open spec fn object_is_null(o: InnerObjectId) -> bool {
    o.ptr == 0 || o.id == 0
}

/// The number by which an object argument goes on the wire.
pub open spec fn object_number(o: InnerObjectId) -> u32 {
    if object_is_null(o) {
        0
    } else {
        o.id
    }
}

/// The new object of a request as it goes on the wire: its number, and,
/// where the sender chooses the interface, the version and the name of the
/// interface.
pub struct Child {
    pub id: u32,
    pub version: u32,
    pub name: Option<Seq<u8>>,
}

/// An argument as it goes on the wire.
pub open spec fn lower_arg(arg: ArgumentView, child: Child) -> WireArgView {
    match arg {
        ArgumentView::Int(i) => WireArgView::Int(i),
        ArgumentView::Uint(u) => WireArgView::Uint(u),
        ArgumentView::Fixed(f) => WireArgView::Fixed(f),
        ArgumentView::Str(s) => WireArgView::Str(s),
        ArgumentView::Object(o) => WireArgView::Object(object_number(o)),
        ArgumentView::NewId(_) => match child.name {
            Some(name) => WireArgView::NewIdGeneric { name, version: child.version, id: child.id },
            None => WireArgView::NewId(child.id),
        },
        ArgumentView::Array(a) => WireArgView::Array(a),
        ArgumentView::Fd(h) => WireArgView::Fd(h),
    }
}

pub open spec fn lower_args(args: Seq<ArgumentView>, child: Child) -> Seq<WireArgView> {
    args.map_values(|a: ArgumentView| lower_arg(a, child))
}

impl<D> InnerBackend<D> {
    /// Whether an object argument may be sent: a foreign object always, a
    /// managed one while it lives.
    pub open spec fn arg_usable(&self, o: InnerObjectId) -> bool {
        o.is_managed() ==> self.is_live(o)
    }

    /// What is wrong with one argument, if anything. `declared` is the
    /// interface that the description gives for an object argument, `name`
    /// the name of the interface that is written with a new object.
    pub open spec fn arg_problem(
        &self,
        ty: ArgumentType,
        arg: ArgumentView,
        declared: InterfaceId,
        name: Option<Seq<u8>>,
    ) -> Option<Verdict> {
        match arg {
            ArgumentView::Object(o) => if !object_is_null(o) {
                if !self.arg_usable(o) {
                    Some(Verdict::InvalidId)
                } else if o.interface != declared {
                    Some(Verdict::Misuse(Misuse::WrongArgInterface))
                } else {
                    None
                }
            } else if ty != ArgumentType::Object(AllowNull::Yes) {
                Some(Verdict::Misuse(Misuse::NullArgument))
            } else {
                None
            },
            ArgumentView::Str(None) => if ty != ArgumentType::Str(AllowNull::Yes) {
                Some(Verdict::Misuse(Misuse::NullArgument))
            } else {
                None
            },
            ArgumentView::Str(Some(s)) => if s.contains(0u8) {
                Some(Verdict::Misuse(Misuse::BadString))
            } else {
                None
            },
            ArgumentView::Array(None) => if ty != ArgumentType::Array(AllowNull::Yes) {
                Some(Verdict::Misuse(Misuse::NullArgument))
            } else {
                None
            },
            ArgumentView::NewId(_) => if name matches Some(n) && n.contains(0u8) {
                Some(Verdict::Misuse(Misuse::BadString))
            } else {
                None
            },
            _ => None,
        }
    }

    /// What is wrong with the argument at a position.
    pub open spec fn problem_at(
        &self,
        desc: MessageDesc,
        args: Seq<ArgumentView>,
        child: Child,
        i: int,
    ) -> Option<Verdict> {
        self.arg_problem(
            desc.signature@[i],
            args[i],
            desc.arg_interfaces@[count_objects(desc.signature@.take(i)) as int],
            child.name,
        )
    }

    /// The first thing that is wrong among the first `n` arguments.
    pub open spec fn first_problem(
        &self,
        desc: MessageDesc,
        args: Seq<ArgumentView>,
        child: Child,
        n: nat,
    ) -> Option<Verdict>
        decreases n,
    {
        if n == 0 {
            None
        } else {
            match self.first_problem(desc, args, child, (n - 1) as nat) {
                Some(p) => Some(p),
                None => self.problem_at(desc, args, child, n - 1),
            }
        }
    }

    /// The description of the request that a message makes.
    pub open spec fn request_desc(&self, msg_sender: InnerObjectId, opcode: u16) -> MessageDesc {
        self.registry@[msg_sender.interface as int].requests@[opcode as int]
    }

    /// The interface and version of the object that a request creates:
    /// those that the caller gives, which must agree with an interface that
    /// the description fixes and then with the version of the sender; or
    /// else the interface that the description fixes, at the version of the
    /// sender. `Ok(None)` for a request that creates no object.
    pub open spec fn child_spec_of(
        &self,
        desc: MessageDesc,
        parent_version: u32,
        child_spec: Option<(InterfaceId, u32)>,
    ) -> Result<Option<(InterfaceId, u32)>, Misuse> {
        if !creates_object(desc.signature@) {
            Ok(None)
        } else {
            match child_spec {
                Some((iface, version)) => match desc.child_interface {
                    Some(fixed) => if iface != fixed {
                        Err(Misuse::WrongChildInterface)
                    } else if version != parent_version {
                        Err(Misuse::WrongChildVersion)
                    } else {
                        Ok(Some((iface, version)))
                    },
                    None => if iface >= self.registry@.len() {
                        Err(Misuse::UnknownInterface)
                    } else {
                        Ok(Some((iface, version)))
                    },
                },
                None => match desc.child_interface {
                    Some(fixed) => Ok(Some((fixed, parent_version))),
                    None => Err(Misuse::MissingChildSpec),
                },
            }
        }
    }

    /// The new object as the arguments are lowered with it: numbered with
    /// the next number of the client, and named where the description fixes
    /// no interface.
    pub open spec fn child_of(&self, desc: MessageDesc, spec: Option<(InterfaceId, u32)>) -> Child {
        match spec {
            Some((interface, version)) => Child {
                id: self.next_id,
                version,
                name: if desc.child_interface is None {
                    Some(self.registry@[interface as int].name@)
                } else {
                    None
                },
            },
            None => Child { id: 0, version: 0, name: None },
        }
    }

    /// Whether the connection has no room for one more object.
    pub open spec fn out_of_objects(&self) -> bool {
        ||| self.next_id == SERVER_ID_BASE
        ||| self.known_proxies.next_cell() == u64::MAX
        ||| is_full(self.known_proxies@)
    }

    /// What becomes of a request. The checks are made in this order: the
    /// sticky error; the liveness of the sender; the opcode; the arity and
    /// kinds of the arguments; the interface and version of the new object;
    /// the arguments, first to last; the size of the message; the handler
    /// of the new object; the room for it.
    pub open spec fn request_verdict(
        &self,
        sender: InnerObjectId,
        opcode: u16,
        args: Seq<ArgumentView>,
        has_data: bool,
        child_spec: Option<(InterfaceId, u32)>,
    ) -> Verdict {
        let iface = self.registry@[sender.interface as int];
        let desc = self.request_desc(sender, opcode);
        if self.state.last_error is Some {
            Verdict::Failed(self.state.last_error->0)
        } else if !self.is_live(sender) {
            Verdict::InvalidId
        } else if opcode >= iface.requests@.len() {
            Verdict::Misuse(Misuse::UnknownOpcode)
        } else if !signature_matches(desc.signature@, args) {
            Verdict::Misuse(Misuse::BadSignature)
        } else {
            match self.child_spec_of(desc, self.version_of(sender), child_spec) {
                Err(m) => Verdict::Misuse(m),
                Ok(spec) => {
                    let child = self.child_of(desc, spec);
                    match self.first_problem(desc, args, child, args.len()) {
                        Some(p) => p,
                        None => if !message_encodable(lower_args(args, child)) {
                            Verdict::Misuse(Misuse::TooLarge)
                        } else if spec is Some && !has_data {
                            Verdict::Misuse(Misuse::MissingObjectData)
                        } else if spec is Some && self.out_of_objects() {
                            Verdict::Misuse(Misuse::OutOfObjects)
                        } else {
                            Verdict::Send
                        },
                    }
                },
            }
        }
    }

    /// The object that a request creates, where it is sent.
    pub open spec fn request_child(
        &self,
        sender: InnerObjectId,
        opcode: u16,
        child_spec: Option<(InterfaceId, u32)>,
    ) -> Option<(InterfaceId, u32)> {
        match self.child_spec_of(
            self.request_desc(sender, opcode),
            self.version_of(sender),
            child_spec,
        ) {
            Ok(spec) => spec,
            Err(_) => None,
        }
    }

    /// The arguments of a request as they go on the wire, where it is sent.
    pub open spec fn request_wire(
        &self,
        sender: InnerObjectId,
        opcode: u16,
        args: Seq<ArgumentView>,
        child_spec: Option<(InterfaceId, u32)>,
    ) -> Seq<WireArgView> {
        lower_args(
            args,
            self.child_of(
                self.request_desc(sender, opcode),
                self.request_child(sender, opcode, child_spec),
            ),
        )
    }
}

/// The objects among a prefix of a signature are among those of the whole.
pub proof fn lemma_count_objects_take(sig: Seq<ArgumentType>, i: int)
    requires
        0 <= i <= sig.len(),
    ensures
        count_objects(sig.take(i)) <= count_objects(sig),
        i < sig.len() ==> count_objects(sig.take(i + 1)) == count_objects(sig.take(i)) + if sig[i]
            is Object {
            1nat
        } else {
            0nat
        },
    decreases sig.len() - i,
{
    if i < sig.len() {
        assert(sig.take(i + 1).drop_last() =~= sig.take(i));
        assert(sig.take(i + 1).last() == sig[i]);
        lemma_count_objects_take(sig, i + 1);
    } else {
        assert(sig.take(i) =~= sig);
    }
}

fn has_new_id(sig: &Vec<ArgumentType>) -> (r: bool)
    ensures
        r == creates_object(sig@),
{
    let mut i: usize = 0;
    while i < sig.len()
        invariant
            i <= sig.len(),
            forall|k: int| 0 <= k < i ==> !(#[trigger] sig@[k] is NewId),
        decreases sig.len() - i,
    {
        if let ArgumentType::NewId(_) = sig[i] {
            return true;
        }
        i = i + 1;
    }
    false
}

/// What was found out about a request that is to be sent.
struct Plan {
    bytes: Vec<u8>,
    fds: Vec<i32>,
    child: Option<(InterfaceId, u32)>,
    destructor: bool,
}

fn lower(arg: &Argument, id: u32, version: u32, name: &Option<Vec<u8>>) -> (w: WireArg)
    ensures
        w@ == lower_arg(arg@, Child { id, version, name: crate::message::bytes_view(*name) }),
{
    match arg {
        Argument::Int(i) => WireArg::Int(*i),
        Argument::Uint(u) => WireArg::Uint(*u),
        Argument::Fixed(f) => WireArg::Fixed(*f),
        Argument::Str(Some(s)) => WireArg::Str(Some(copy_bytes(s))),
        Argument::Str(None) => WireArg::Str(None),
        Argument::Object(o) => if o.ptr == 0 || o.id == 0 {
            WireArg::Object(0)
        } else {
            WireArg::Object(o.id)
        },
        Argument::NewId(_) => match name {
            Some(n) => WireArg::NewIdGeneric { name: copy_bytes(n), version, id },
            None => WireArg::NewId(id),
        },
        Argument::Array(Some(a)) => WireArg::Array(Some(copy_bytes(a))),
        Argument::Array(None) => WireArg::Array(None),
        Argument::Fd(h) => WireArg::Fd(*h),
    }
}

impl<D> InnerBackend<D> {
    fn problem_of(
        &self,
        ty: ArgumentType,
        arg: &Argument,
        declared: InterfaceId,
        name: &Option<Vec<u8>>,
    ) -> (r: Option<Verdict>)
        ensures
            r == self.arg_problem(ty, arg@, declared, crate::message::bytes_view(*name)),
    {
        match arg {
            Argument::Object(o) => {
                if o.ptr != 0 && o.id != 0 {
                    if o.alive.is_some() && !self.is_alive(o) {
                        Some(Verdict::InvalidId)
                    } else if o.interface != declared {
                        Some(Verdict::Misuse(Misuse::WrongArgInterface))
                    } else {
                        None
                    }
                } else {
                    match ty {
                        ArgumentType::Object(AllowNull::Yes) => None,
                        _ => Some(Verdict::Misuse(Misuse::NullArgument)),
                    }
                }
            },
            Argument::Str(None) => match ty {
                ArgumentType::Str(AllowNull::Yes) => None,
                _ => Some(Verdict::Misuse(Misuse::NullArgument)),
            },
            Argument::Str(Some(s)) => if contains_nul(s) {
                Some(Verdict::Misuse(Misuse::BadString))
            } else {
                None
            },
            Argument::Array(None) => match ty {
                ArgumentType::Array(AllowNull::Yes) => None,
                _ => Some(Verdict::Misuse(Misuse::NullArgument)),
            },
            Argument::NewId(_) => match name {
                Some(n) => if contains_nul(n) {
                    Some(Verdict::Misuse(Misuse::BadString))
                } else {
                    None
                },
                None => None,
            },
            _ => None,
        }
    }

    fn resolve_child(
        &self,
        desc: &MessageDesc,
        parent_version: u32,
        child_spec: Option<(InterfaceId, u32)>,
    ) -> (r: Result<Option<(InterfaceId, u32)>, Misuse>)
        ensures
            r == self.child_spec_of(*desc, parent_version, child_spec),
    {
        if !has_new_id(&desc.signature) {
            return Ok(None);
        }
        match child_spec {
            Some((iface, version)) => match desc.child_interface {
                Some(fixed) => if iface != fixed {
                    Err(Misuse::WrongChildInterface)
                } else if version != parent_version {
                    Err(Misuse::WrongChildVersion)
                } else {
                    Ok(Some((iface, version)))
                },
                None => if iface >= self.registry.len() {
                    Err(Misuse::UnknownInterface)
                } else {
                    Ok(Some((iface, version)))
                },
            },
            None => match desc.child_interface {
                Some(fixed) => Ok(Some((fixed, parent_version))),
                None => Err(Misuse::MissingChildSpec),
            },
        }
    }

    fn plan_request(
        &self,
        msg: &Message,
        has_data: bool,
        child_spec: Option<(InterfaceId, u32)>,
    ) -> (r: Result<Plan, Verdict>)
        requires
            self.wf(),
        ensures
            match r {
                Ok(plan) => {
                    &&& self.request_verdict(
                        msg.sender_id,
                        msg.opcode,
                        msg.args@,
                        has_data,
                        child_spec,
                    ) == Verdict::Send
                    &&& plan.bytes@ == message_bytes(
                        msg.sender_id.id,
                        msg.opcode,
                        self.request_wire(msg.sender_id, msg.opcode, msg.args@, child_spec),
                    )
                    &&& plan.fds@ == args_fds(
                        self.request_wire(msg.sender_id, msg.opcode, msg.args@, child_spec),
                    )
                    &&& plan.child == self.request_child(msg.sender_id, msg.opcode, child_spec)
                    &&& plan.destructor == self.request_desc(
                        msg.sender_id,
                        msg.opcode,
                    ).is_destructor
                    &&& plan.child matches Some((interface, _)) ==> {
                        &&& has_data
                        &&& !self.out_of_objects()
                        &&& interface < self.registry@.len()
                    }
                },
                Err(v) => v != Verdict::Send && v == self.request_verdict(
                    msg.sender_id,
                    msg.opcode,
                    msg.args@,
                    has_data,
                    child_spec,
                ),
            },
    {
        let sender = msg.sender_id;
        if let Err(e) = self.state.no_last_error() {
            return Err(Verdict::Failed(e));
        }
        if !self.is_alive(&sender) {
            return Err(Verdict::InvalidId);
        }
        let parent_version = match self.info(sender) {
            Ok(info) => info.version,
            Err(_) => {
                return Err(Verdict::InvalidId);
            },
        };
        let iface = match self.registry.get(sender.interface) {
            Some(iface) => iface,
            None => {
                return Err(Verdict::InvalidId);
            },
        };
        if msg.opcode as usize >= iface.requests.len() {
            return Err(Verdict::Misuse(Misuse::UnknownOpcode));
        }
        let desc = &iface.requests[msg.opcode as usize];
        assert(*desc == self.request_desc(sender, msg.opcode));
        if !check_for_signature(&desc.signature, &msg.args) {
            return Err(Verdict::Misuse(Misuse::BadSignature));
        }
        let spec = match self.resolve_child(desc, parent_version, child_spec) {
            Ok(spec) => spec,
            Err(m) => {
                return Err(Verdict::Misuse(m));
            },
        };
        let (child_id, child_version, name): (u32, u32, Option<Vec<u8>>) = match spec {
            Some((interface, version)) => {
                if desc.child_interface.is_none() {
                    match self.registry.get(interface) {
                        Some(i) => (self.next_id, version, Some(copy_bytes(&i.name))),
                        None => (self.next_id, version, None),
                    }
                } else {
                    (self.next_id, version, None)
                }
            },
            None => (0, 0, None),
        };
        let ghost child = self.child_of(*desc, spec);
        assert(child == Child {
            id: child_id,
            version: child_version,
            name: crate::message::bytes_view(name),
        });
        let n = msg.args.len();
        let mut wire: Vec<WireArg> = Vec::new();
        let mut k: usize = 0;
        let mut i: usize = 0;
        assert(desc.signature@.take(0) =~= Seq::<ArgumentType>::empty());
        while i < n
            invariant
                i <= n,
                n == msg.args@.len(),
                n == arg_items(msg.args).len(),
                self.wf(),
                signature_matches(desc.signature@, msg.args@),
                crate::protocol::desc_valid(*desc, self.registry@.len()),
                k == count_objects(desc.signature@.take(i as int)),
                self.first_problem(*desc, msg.args@, child, i as nat) is None,
                wire.len() == i,
                forall|j: int| 0 <= j < i ==> (#[trigger] wire@[j])@ == lower_arg(
                    msg.args@[j],
                    child,
                ),
                self.state.last_error is None,
                self.is_live(sender),
                sender == msg.sender_id,
                msg.opcode < self.registry@[sender.interface as int].requests@.len(),
                *desc == self.request_desc(sender, msg.opcode),
                self.child_spec_of(*desc, self.version_of(sender), child_spec) == Ok::<
                    Option<(InterfaceId, u32)>,
                    Misuse,
                >(spec),
                child == self.child_of(*desc, spec),
                crate::message::bytes_view(name) == child.name,
                child_id == child.id,
                child_version == child.version,
            decreases n - i,
        {
            let arg = match msg.args.get(i) {
                Some(a) => a,
                None => {
                    return Err(Verdict::InvalidId);
                },
            };
            let ty = desc.signature[i];
            proof {
                lemma_count_objects_take(desc.signature@, i as int);
                lemma_count_objects_take(desc.signature@, i + 1);
                assert(crate::message::arg_has_type(msg.args@[i as int], desc.signature@[i as int]));
                assert(arg@ == msg.args@[i as int]);
            }
            let declared = match arg {
                Argument::Object(_) => {
                    let declared_len = desc.arg_interfaces.len();
                    assert(k < declared_len);
                    let d = desc.arg_interfaces[k];
                    k = k + 1;
                    d
                },
                _ => 0,
            };
            let problem = self.problem_of(ty, arg, declared, &name);
            assert(problem == self.problem_at(*desc, msg.args@, child, i as int));
            if let Some(p) = problem {
                proof {
                    self.lemma_problem_found(*desc, msg.args@, child, i as int);
                }
                return Err(p);
            }
            let w = lower(arg, child_id, child_version, &name);
            wire.push(w);
            i = i + 1;
        }
        assert(wire_views(wire@) =~= lower_args(msg.args@, child));
        let encoded = match encode_message(sender.id, msg.opcode, &wire) {
            Some(m) => m,
            None => {
                return Err(Verdict::Misuse(Misuse::TooLarge));
            },
        };
        if spec.is_some() {
            if !has_data {
                return Err(Verdict::Misuse(Misuse::MissingObjectData));
            }
            if self.next_id == SERVER_ID_BASE || !self.known_proxies.has_room() {
                return Err(Verdict::Misuse(Misuse::OutOfObjects));
            }
        }
        Ok(
            Plan {
                bytes: encoded.bytes,
                fds: encoded.fds,
                child: spec,
                destructor: desc.is_destructor,
            },
        )
    }

    /// Where the first problem among the first `i` arguments is none and
    /// the argument at `i` has one, that one is the first problem of all.
    proof fn lemma_problem_found(
        &self,
        desc: MessageDesc,
        args: Seq<ArgumentView>,
        child: Child,
        i: int,
    )
        requires
            0 <= i < args.len(),
            self.first_problem(desc, args, child, i as nat) is None,
            self.problem_at(desc, args, child, i) is Some,
        ensures
            self.first_problem(desc, args, child, args.len()) == self.problem_at(
                desc,
                args,
                child,
                i,
            ),
    {
        self.lemma_problem_stays(desc, args, child, (i + 1) as nat, args.len());
    }

    proof fn lemma_problem_stays(
        &self,
        desc: MessageDesc,
        args: Seq<ArgumentView>,
        child: Child,
        n: nat,
        m: nat,
    )
        requires
            n <= m,
            self.first_problem(desc, args, child, n) is Some,
        ensures
            self.first_problem(desc, args, child, m) == self.first_problem(desc, args, child, n),
        decreases m - n,
    {
        if n < m {
            self.lemma_problem_stays(desc, args, child, n, (m - 1) as nat);
        }
    }

    /// Says what would become of a request, and changes nothing.
    pub fn check_request(
        &self,
        msg: &Message,
        has_data: bool,
        child_spec: Option<(InterfaceId, u32)>,
    ) -> (v: Verdict)
        requires
            self.wf(),
        ensures
            v == self.request_verdict(msg.sender_id, msg.opcode, msg.args@, has_data, child_spec),
    {
        match self.plan_request(msg, has_data, child_spec) {
            Ok(_) => Verdict::Send,
            Err(v) => v,
        }
    }
}

impl<D> InnerBackend<D> {
    /// What sending a request does to a connection: the message is put
    /// behind what waits to be written; the new object, if the request
    /// creates one, gets the next number of the client, the lowest free
    /// handle and a fresh liveness cell, and the handler that was given;
    /// and the sender, if the request is a destructor and the sender is an
    /// object of the table, leaves the table.
    pub open spec fn sent_as(
        &self,
        sender: InnerObjectId,
        opcode: u16,
        args: Seq<ArgumentView>,
        data: Option<D>,
        child_spec: Option<(InterfaceId, u32)>,
        sent: Sent<D>,
        after: Self,
    ) -> bool {
        let wire = self.request_wire(sender, opcode, args, child_spec);
        let child = self.request_child(sender, opcode, child_spec);
        let with_child = match child {
            Some((interface, version)) => self.known_proxies@.insert(
                sent.child.ptr,
                ProxyUserData {
                    id: self.next_id,
                    version,
                    alive: self.known_proxies.next_cell(),
                    interface,
                    data,
                },
            ),
            None => self.known_proxies@,
        };
        let retires = self.request_desc(sender, opcode).is_destructor
            && self.known_proxies.is_alive_spec(sender);
        &&& after.outgoing@ == self.outgoing@ + message_bytes(sender.id, opcode, wire)
        &&& after.outgoing_fds@ == self.outgoing_fds@ + args_fds(wire)
        &&& match child {
            Some((interface, version)) => {
                &&& sent.child == InnerObjectId {
                    connection: self.connection(),
                    id: self.next_id,
                    ptr: sent.child.ptr,
                    alive: Some(self.known_proxies.next_cell()),
                    interface,
                }
                &&& crate::table::is_lowest_free(self.known_proxies@, sent.child.ptr)
                &&& after.next_id == self.next_id + 1
                &&& after.known_proxies.next_cell() == self.known_proxies.next_cell() + 1
            },
            None => {
                &&& sent.child == InnerObjectId::null_spec()
                &&& after.next_id == self.next_id
                &&& after.known_proxies.next_cell() == self.known_proxies.next_cell()
            },
        }
        &&& after.known_proxies@ == if retires {
            with_child.remove(sender.ptr)
        } else {
            with_child
        }
        &&& sent.destroyed == if retires {
            Some(self.known_proxies@[sender.ptr])
        } else {
            None
        }
        &&& after.connection() == self.connection()
        &&& after.registry == self.registry
        &&& after.state == self.state
        &&& after.incoming == self.incoming
        &&& after.incoming_fds == self.incoming_fds
        &&& after.queue == self.queue
        &&& after.reader == self.reader
        &&& after.next_ticket == self.next_ticket
    }

    /// Sends a request.
    ///
    /// The request must not be one that [`InnerBackend::check_request`]
    /// calls a misuse. Where the connection has a sticky error, that error
    /// is returned; where the sender or an object among the arguments is
    /// not alive, `InvalidId` is; in both cases nothing changes. Else the
    /// request is sent as [`InnerBackend::sent_as`] says, and the identity
    /// of the new object is returned, with the entry of the sender where
    /// the request has retired it.
    pub fn send_request(
        &mut self,
        msg: Message,
        data: Option<D>,
        child_spec: Option<(InterfaceId, u32)>,
    ) -> (r: Result<Sent<D>, SendError>)
        requires
            old(self).wf(),
            !(old(self).request_verdict(
                msg.sender_id,
                msg.opcode,
                msg.args@,
                data is Some,
                child_spec,
            ) is Misuse),
        ensures
            final(self).wf(),
            match old(self).request_verdict(
                msg.sender_id,
                msg.opcode,
                msg.args@,
                data is Some,
                child_spec,
            ) {
                Verdict::Failed(e) => r == Err::<Sent<D>, SendError>(SendError::Connection(e))
                    && *final(self) == *old(self),
                Verdict::InvalidId => r == Err::<Sent<D>, SendError>(SendError::InvalidId)
                    && *final(self) == *old(self),
                _ => r matches Ok(sent) && old(self).sent_as(
                    msg.sender_id,
                    msg.opcode,
                    msg.args@,
                    data,
                    child_spec,
                    sent,
                    *final(self),
                ),
            },
            crate::table::evolves(
                old(self).known_proxies@,
                old(self).known_proxies.next_cell(),
                final(self).known_proxies@,
                final(self).known_proxies.next_cell(),
            ),
    {
        let sender = msg.sender_id;
        let plan = match self.plan_request(&msg, data.is_some(), child_spec) {
            Ok(plan) => plan,
            Err(Verdict::Failed(e)) => {
                return Err(SendError::Connection(e));
            },
            Err(_) => {
                return Err(SendError::InvalidId);
            },
        };
        let retires = plan.destructor && self.known_proxies.is_alive(&sender);
        let mut bytes = plan.bytes;
        let mut fds = plan.fds;
        self.outgoing.append(&mut bytes);
        self.outgoing_fds.append(&mut fds);
        let child = match plan.child {
            Some((interface, version)) => {
                assert(interface < self.registry@.len());
                assert(!crate::table::has_id(self.known_proxies@, self.next_id)) by {
                    if crate::table::has_id(self.known_proxies@, self.next_id) {
                        let p = choose|p: u64| #[trigger]
                            self.known_proxies@.contains_key(p) && self.known_proxies@[p].id
                                == self.next_id;
                        assert(self.known_proxies@.contains_key(p));
                    }
                }
                match self.known_proxies.register(self.next_id, version, interface, data) {
                    Some(oid) => {
                        self.next_id = self.next_id + 1;
                        oid
                    },
                    None => Self::null_id(),
                }
            },
            None => Self::null_id(),
        };
        let ghost mid = self.known_proxies@;
        assert forall|p: u64| #[trigger] mid.contains_key(p) implies {
            &&& mid[p].interface < self.registry@.len()
            &&& mid[p].id != DISPLAY_ID
            &&& mid[p].id < SERVER_ID_BASE ==> mid[p].id < self.next_id
        } by {
            if p != child.ptr || plan.child is None {
                assert(old(self).known_proxies@.contains_key(p));
            }
        }
        let ghost mid_next = self.known_proxies.next_cell();
        let destroyed = if retires {
            self.known_proxies.invalidate(sender.ptr)
        } else {
            None
        };
        assert forall|p: u64| #[trigger] self.known_proxies@.contains_key(p) implies {
            &&& self.known_proxies@[p].interface < self.registry@.len()
            &&& self.known_proxies@[p].id != DISPLAY_ID
            &&& self.known_proxies@[p].id < SERVER_ID_BASE ==> self.known_proxies@[p].id
                < self.next_id
        } by {
            assert(mid.contains_key(p));
        }
        proof {
            crate::table::lemma_evolves_trans(
                old(self).known_proxies@,
                old(self).known_proxies.next_cell(),
                mid,
                mid_next,
                self.known_proxies@,
                self.known_proxies.next_cell(),
            );
        }
        Ok(Sent { child, destroyed })
    }
}

} // verus!
