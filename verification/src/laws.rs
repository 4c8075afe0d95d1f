//! Laws that hold across the operations of a connection.

use crate::backend::InnerBackend;
use crate::dispatch::{Event, EventVerdict};
use crate::message::{signature_matches, ArgumentView};
use crate::object_id::{InnerObjectId, InterfaceId};
use crate::request::{lower_args, Child, Verdict};
use crate::state::WaylandError;
use crate::table::{entries_wf, evolves, is_alive_in, lemma_evolves_trans, ProxyUserData};
use crate::transport::{read_evolves, InnerReadEventsGuard, ReadSnapshot};
use crate::wire::{
    args_bytes, args_fds, decode_args, lemma_args_round_trip, wire_arg_fits, wire_args_fit,
};
use vstd::prelude::*;

verus! {

/// The contents of an object table at one moment.
pub struct Snapshot<D> {
    /// The number of the connection that the table belongs to.
    pub connection: u64,
    /// The live objects, by handle.
    pub entries: Map<u64, ProxyUserData<D>>,
    /// The cell that the next registration takes.
    pub next_cell: u64,
}

impl<D> Snapshot<D> {
    /// Whether an identity denotes a live object at this moment.
    pub open spec fn holds(&self, oid: InnerObjectId) -> bool {
        is_alive_in(self.connection, self.entries, oid)
    }
}

/// The contents of the table of a connection now.
pub open spec fn snapshot_of<D>(backend: InnerBackend<D>) -> Snapshot<D> {
    Snapshot {
        connection: backend.connection(),
        entries: backend.known_proxies@,
        next_cell: backend.known_proxies.next_cell(),
    }
}

/// Whether each snapshot of a sequence has evolved from the one before it,
/// as it does under any sequence of operations of one connection.
pub open spec fn is_history<D>(trace: Seq<Snapshot<D>>) -> bool {
    forall|i: int|
        0 <= i < trace.len() - 1 ==> {
            &&& (#[trigger] trace[i]).connection == trace[i + 1].connection
            &&& evolves(
                trace[i].entries,
                trace[i].next_cell,
                trace[i + 1].entries,
                trace[i + 1].next_cell,
            )
        }
}

/// Two identities of live objects of one table are equal exactly when they
/// denote the same object, whichever way they were obtained; and they
/// denote the same object as soon as they agree in handle, in wire number
/// or in liveness cell.
pub proof fn lemma_one_identity_per_object<D>(table: Snapshot<D>, a: InnerObjectId, b: InnerObjectId)
    requires
        entries_wf(table.entries, table.next_cell),
        table.holds(a),
        table.holds(b),
    ensures
        a.same_object(&b) <==> a == b,
        a.ptr == b.ptr ==> a == b,
        a.id == b.id ==> a == b,
        a.alive == b.alive ==> a == b,
{
    assert(table.entries.contains_key(a.ptr) && table.entries.contains_key(b.ptr));
}

/// Identities of live objects of the tables of two connections with
/// different numbers never denote the same object, and their hash keys
/// differ: not even where the objects agree in handle, in wire number and
/// in liveness cell.
pub proof fn lemma_tables_apart<D>(
    first: Snapshot<D>,
    second: Snapshot<D>,
    a: InnerObjectId,
    b: InnerObjectId,
)
    requires
        first.connection != second.connection,
        first.holds(a),
        second.holds(b),
    ensures
        !a.same_object(&b),
        a != b,
        a.hash_key_spec() != b.hash_key_spec(),
{
}

/// Two identities of live objects of one connection, its root object
/// included, are equal exactly when they denote the same object.
pub proof fn lemma_one_identity_per_live_object<D>(
    backend: InnerBackend<D>,
    a: InnerObjectId,
    b: InnerObjectId,
)
    requires
        backend.wf(),
        backend.is_live(a),
        backend.is_live(b),
    ensures
        a.same_object(&b) <==> a == b,
        a.id == b.id ==> a == b,
{
    if backend.known_proxies.is_alive_spec(a) {
        assert(backend.known_proxies@.contains_key(a.ptr));
    }
    if backend.known_proxies.is_alive_spec(b) {
        assert(backend.known_proxies@.contains_key(b.ptr));
    }
}

/// Identities of live objects of two connections with different numbers,
/// their root objects included, never denote the same object, and their
/// hash keys differ.
pub proof fn lemma_connections_apart<D, E>(
    first: InnerBackend<D>,
    second: InnerBackend<E>,
    a: InnerObjectId,
    b: InnerObjectId,
)
    requires
        first.wf(),
        second.wf(),
        first.connection() != second.connection(),
        first.is_live(a),
        second.is_live(b),
    ensures
        !a.same_object(&b),
        a != b,
        a.hash_key_spec() != b.hash_key_spec(),
{
}

/// An identity that is dead, and whose cell has been handed out, stays
/// dead however the table evolves.
pub proof fn lemma_dead_stays_dead<D>(before: Snapshot<D>, after: Snapshot<D>, oid: InnerObjectId)
    requires
        before.connection == after.connection,
        evolves(before.entries, before.next_cell, after.entries, after.next_cell),
        oid.alive matches Some(c) && c < before.next_cell,
        !before.holds(oid),
    ensures
        !after.holds(oid),
{
    if after.holds(oid) {
        assert(after.entries.contains_key(oid.ptr));
    }
}

/// In a history, a later snapshot has evolved from every earlier one.
pub proof fn lemma_history_evolves<D>(trace: Seq<Snapshot<D>>, i: int, j: int)
    requires
        is_history(trace),
        0 <= i <= j < trace.len(),
    ensures
        trace[i].connection == trace[j].connection,
        evolves(trace[i].entries, trace[i].next_cell, trace[j].entries, trace[j].next_cell),
    decreases j - i,
{
    if i < j {
        lemma_history_evolves(trace, i, j - 1);
        assert(trace[j - 1].connection == trace[j].connection && evolves(
            trace[j - 1].entries,
            trace[j - 1].next_cell,
            trace[j].entries,
            trace[j].next_cell,
        ));
        lemma_evolves_trans(
            trace[i].entries,
            trace[i].next_cell,
            trace[j - 1].entries,
            trace[j - 1].next_cell,
            trace[j].entries,
            trace[j].next_cell,
        );
    }
}

/// Over any sequence of operations, an object that was alive and has been
/// destroyed is never alive again, and no object that lives later is the
/// same object, even where it has got the same wire number and the same
/// handle.
pub proof fn lemma_never_alive_again<D>(
    trace: Seq<Snapshot<D>>,
    i: int,
    j: int,
    k: int,
    gone: InnerObjectId,
    later: InnerObjectId,
)
    requires
        is_history(trace),
        0 <= i <= j <= k < trace.len(),
        entries_wf(trace[i].entries, trace[i].next_cell),
        trace[i].holds(gone),
        !trace[j].holds(gone),
        trace[k].holds(later),
    ensures
        !trace[k].holds(gone),
        !later.same_object(&gone),
{
    lemma_history_evolves(trace, i, j);
    lemma_history_evolves(trace, j, k);
    lemma_history_evolves(trace, i, k);
    assert(trace[i].entries.contains_key(gone.ptr));
    lemma_dead_stays_dead(trace[j], trace[k], gone);
    if later.same_object(&gone) {
        assert(trace[k].entries.contains_key(later.ptr));
        assert(trace[j].entries.contains_key(later.ptr));
        assert(trace[i].entries.contains_key(later.ptr));
        assert(later.ptr == gone.ptr);
    }
}

/// No event is handed out for an object that has been destroyed: the
/// object that an event is handed out for is alive, and is not the same
/// object as any that was destroyed before, even where the server has
/// given it the wire number of such a one.
pub proof fn lemma_no_event_for_destroyed_object<D>(
    trace: Seq<Snapshot<D>>,
    i: int,
    j: int,
    gone: InnerObjectId,
    backend: InnerBackend<D>,
    event: Event,
    after: InnerBackend<D>,
)
    requires
        is_history(trace),
        0 <= i <= j < trace.len(),
        entries_wf(trace[i].entries, trace[i].next_cell),
        trace[i].holds(gone),
        !trace[j].holds(gone),
        trace.last() == snapshot_of(backend),
        backend.wf(),
        backend.event_verdict() == EventVerdict::Deliver,
        backend.delivered_as(event, after),
    ensures
        backend.known_proxies.is_alive_spec(event.message.sender_id),
        !event.message.sender_id.same_object(&gone),
{
    let n = backend.queue@[0].sender;
    let p = backend.handle_of(n);
    assert(crate::table::has_id(backend.known_proxies@, n));
    assert(backend.known_proxies@.contains_key(p));
    lemma_never_alive_again(trace, i, j, trace.len() - 1, gone, event.message.sender_id);
}

/// While a guard holds the right to read, the right is granted to no other.
pub proof fn lemma_single_reader<D>(
    backend: InnerBackend<D>,
    g1: InnerReadEventsGuard,
    g2: InnerReadEventsGuard,
)
    requires
        backend.holds_read(g1),
    ensures
        !backend.grants_read(),
        backend.holds_read(g2) ==> g2.ticket == g1.ticket,
{
}

/// Whether each snapshot of a sequence has evolved from the one before it,
/// as it does under any sequence of asking for the right to read, reading
/// and cancelling.
pub open spec fn is_read_history(trace: Seq<ReadSnapshot>) -> bool {
    forall|i: int| 0 <= i < trace.len() - 1 ==> read_evolves(#[trigger] trace[i], trace[i + 1])
}

/// In a history tickets are only handed out upwards.
pub proof fn lemma_tickets_grow(trace: Seq<ReadSnapshot>, i: int, j: int)
    requires
        is_read_history(trace),
        0 <= i <= j < trace.len(),
    ensures
        trace[i].next_ticket <= trace[j].next_ticket,
    decreases j - i,
{
    if i < j {
        lemma_tickets_grow(trace, i, j - 1);
        assert(read_evolves(trace[j - 1], trace[j]));
    }
}

/// Over any sequence of asking for the right to read, reading and
/// cancelling, a guard that has given the right back never holds it again:
/// whoever holds it later is another guard.
pub proof fn lemma_stale_guard_never_holds(
    trace: Seq<ReadSnapshot>,
    i: int,
    j: int,
    k: int,
    guard: InnerReadEventsGuard,
)
    requires
        is_read_history(trace),
        0 <= i <= j <= k < trace.len(),
        trace[i].reader == Some(guard.ticket),
        guard.ticket < trace[i].next_ticket,
        trace[j].reader != Some(guard.ticket),
    ensures
        trace[k].reader != Some(guard.ticket),
    decreases k - j,
{
    if j < k {
        lemma_stale_guard_never_holds(trace, i, j, k - 1, guard);
        assert(read_evolves(trace[k - 1], trace[k]));
        lemma_tickets_grow(trace, i, k - 1);
    }
}

/// Asking for the right to read while messages wait to be dispatched, or
/// while the connection has a sticky error, grants nothing; and the right is
/// granted only where nobody holds it.
pub proof fn lemma_read_is_granted_to_one<D>(backend: InnerBackend<D>)
    ensures
        backend.grants_read() ==> backend.reader is None && backend.queue@.len() == 0
            && backend.state.last_error is None,
{
}

/// Once a connection has a sticky error, no request is sent, no event is
/// handed out and the right to read is not granted: each fails with that
/// error.
pub proof fn lemma_error_is_sticky<D>(
    backend: InnerBackend<D>,
    e: WaylandError,
    sender: InnerObjectId,
    opcode: u16,
    args: Seq<ArgumentView>,
    has_data: bool,
    child_spec: Option<(InterfaceId, u32)>,
)
    requires
        backend.state.last_error == Some(e),
    ensures
        backend.request_verdict(sender, opcode, args, has_data, child_spec) == Verdict::Failed(e),
        backend.event_verdict() == EventVerdict::Failed(e),
        !backend.grants_read(),
{
}

/// Where the arguments of a request have no problem, none of them has.
proof fn lemma_no_problem_anywhere<D>(
    backend: InnerBackend<D>,
    desc: crate::protocol::MessageDesc,
    args: Seq<ArgumentView>,
    child: Child,
    n: nat,
    i: int,
)
    requires
        backend.first_problem(desc, args, child, n) is None,
        0 <= i < n,
    ensures
        backend.problem_at(desc, args, child, i) is None,
    decreases n,
{
    if i < n - 1 {
        lemma_no_problem_anywhere(backend, desc, args, child, (n - 1) as nat, i);
    }
}

/// A problem with an argument is never the verdict that the request is
/// sent.
proof fn lemma_problem_is_no_send<D>(
    backend: InnerBackend<D>,
    desc: crate::protocol::MessageDesc,
    args: Seq<ArgumentView>,
    child: Child,
    n: nat,
)
    ensures
        backend.first_problem(desc, args, child, n) != Some(Verdict::Send),
    decreases n,
{
    if n > 0 {
        lemma_problem_is_no_send(backend, desc, args, child, (n - 1) as nat);
    }
}

/// What a request puts on the wire is read back, with the signature of the
/// request, as the arguments that were written, argument for argument:
/// null strings, arrays and objects included.
pub proof fn lemma_request_round_trip<D>(
    backend: InnerBackend<D>,
    sender: InnerObjectId,
    opcode: u16,
    args: Seq<ArgumentView>,
    has_data: bool,
    child_spec: Option<(InterfaceId, u32)>,
    more_fds: Seq<i32>,
)
    requires
        backend.wf(),
        backend.request_verdict(sender, opcode, args, has_data, child_spec) == Verdict::Send,
    ensures
        decode_args(
            backend.request_desc(sender, opcode).signature@,
            backend.request_desc(sender, opcode).child_interface is None,
            args_bytes(backend.request_wire(sender, opcode, args, child_spec)),
            args_fds(backend.request_wire(sender, opcode, args, child_spec)) + more_fds,
        ) == Some(backend.request_wire(sender, opcode, args, child_spec)),
{
    let desc = backend.request_desc(sender, opcode);
    let sig = desc.signature@;
    let generic = desc.child_interface is None;
    let spec = backend.request_child(sender, opcode, child_spec);
    let child = backend.child_of(desc, spec);
    let wire = backend.request_wire(sender, opcode, args, child_spec);
    assert(wire == lower_args(args, child));
    assert(backend.state.last_error is None);
    assert(signature_matches(sig, args));
    let resolved = backend.child_spec_of(desc, backend.version_of(sender), child_spec);
    assert(resolved is Ok);
    assert(resolved == Ok::<Option<(InterfaceId, u32)>, crate::request::Misuse>(spec));
    lemma_problem_is_no_send(backend, desc, args, child, args.len());
    assert(backend.first_problem(desc, args, child, args.len()) is None);
    assert(crate::wire::message_encodable(wire));
    assert forall|i: int| 0 <= i < wire.len() implies wire_arg_fits(
        #[trigger] wire[i],
        sig[i],
        generic,
    ) by {
        lemma_no_problem_anywhere(backend, desc, args, child, args.len(), i);
        assert(crate::message::arg_has_type(args[i], sig[i]));
        assert(crate::wire::arg_encodable(wire[i]));
        if args[i] is NewId {
            assert(sig[i] is NewId);
            assert(crate::protocol::creates_object(sig));
        }
    }
    assert(wire_args_fit(wire, sig, generic));
    lemma_args_round_trip(wire, sig, generic, more_fds);
}

/// The arguments of an event that is handed out have the arity and the
/// kinds of the signature of the event.
pub proof fn lemma_delivered_args_match_signature<D>(backend: InnerBackend<D>)
    requires
        backend.wf(),
        backend.event_verdict() == EventVerdict::Deliver,
    ensures
        signature_matches(backend.event_desc().signature@, backend.event_args()),
{
    let desc = backend.event_desc();
    let generic = desc.child_interface is None;
    let wire = backend.event_wire()->0;
    crate::wire::lemma_decoded_args_fit(
        desc.signature@,
        generic,
        backend.queue@[0].body@,
        backend.incoming_fds@,
    );
    let args = backend.event_args();
    assert(args.len() == wire.len());
    assert forall|i: int| 0 <= i < desc.signature@.len() implies crate::message::arg_has_type(
        #[trigger] args[i],
        desc.signature@[i],
    ) by {
        assert(wire_arg_fits(wire[i], desc.signature@[i], generic));
    }
}

} // verus!
