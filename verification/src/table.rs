//! The object table: which handles denote a live object, and what is known
//! of each.
//!
//! Handles and wire numbers are both recycled once an object is gone. The
//! liveness cell of an entry is not: each registration takes the next cell,
//! so an identity that has died can never come to denote a later object.

use crate::object_id::{InnerObjectId, InterfaceId};
use vstd::prelude::*;

verus! {

/// What the table keeps for a live object.
#[derive(Debug)]
pub struct ProxyUserData<D> {
    /// The number that names the object on the wire.
    pub id: u32,
    /// The version of its interface that the object speaks.
    pub version: u32,
    /// The liveness cell of the object.
    pub alive: u64,
    /// The interface of the object.
    pub interface: InterfaceId,
    /// The handler attached to the object; `None` while an object that an
    /// event has created waits for the handler that the event's own handler
    /// is to supply.
    pub data: Option<D>,
}

/// The managed identity of the object that an entry describes, in the table
/// of a connection.
pub open spec fn identity<D>(connection: u64, ptr: u64, entry: ProxyUserData<D>) -> InnerObjectId {
    InnerObjectId {
        connection,
        id: entry.id,
        ptr,
        alive: Some(entry.alive),
        interface: entry.interface,
    }
}

/// Whether two entries describe the same object: they agree in wire number,
/// liveness cell and interface.
pub open spec fn same_entry<D>(a: ProxyUserData<D>, b: ProxyUserData<D>) -> bool {
    a.id == b.id && a.alive == b.alive && a.interface == b.interface
}

/// Largest handle that the table hands out.
pub const MAX_HANDLE: u64 = 0xFFFF_FFFF;

/// The invariant of the table's contents: handles are within bounds, no
/// entry has the wire number 0, cells were handed out before `next_cell`
/// and after cell 0, and no two entries share a wire number or a cell.
pub open spec fn entries_wf<D>(m: Map<u64, ProxyUserData<D>>, next_cell: u64) -> bool {
    &&& 1 <= next_cell
    &&& forall|p: u64| #[trigger]
        m.contains_key(p) ==> 1 <= p <= MAX_HANDLE && m[p].id != 0 && 1 <= m[p].alive < next_cell
    &&& forall|p: u64, q: u64|
        #![trigger m.contains_key(p), m.contains_key(q)]
        m.contains_key(p) && m.contains_key(q) && p != q ==> m[p].id != m[q].id && m[p].alive
            != m[q].alive
}

/// Whether an identity denotes a live object of the table of a connection:
/// it is managed and of that connection, and the entry at its handle has its
/// cell, number and interface.
pub open spec fn is_alive_in<D>(
    connection: u64,
    m: Map<u64, ProxyUserData<D>>,
    oid: InnerObjectId,
) -> bool {
    &&& m.contains_key(oid.ptr)
    &&& identity(connection, oid.ptr, m[oid.ptr]) == oid
}

/// Whether some live object has the given wire number.
pub open spec fn has_id<D>(m: Map<u64, ProxyUserData<D>>, id: u32) -> bool {
    exists|p: u64| #[trigger] m.contains_key(p) && m[p].id == id
}

/// Whether `h` is the lowest handle that denotes no object.
pub open spec fn is_lowest_free<D>(m: Map<u64, ProxyUserData<D>>, h: u64) -> bool {
    &&& 1 <= h
    &&& !m.contains_key(h)
    &&& forall|g: u64| 1 <= g < h ==> #[trigger] m.contains_key(g)
}

/// The lowest handle that denotes no object.
pub open spec fn lowest_free_handle<D>(m: Map<u64, ProxyUserData<D>>) -> u64 {
    choose|h: u64| is_lowest_free(m, h)
}

/// There is at most one lowest free handle.
pub proof fn lemma_lowest_free_unique<D>(m: Map<u64, ProxyUserData<D>>, h1: u64, h2: u64)
    requires
        is_lowest_free(m, h1),
        is_lowest_free(m, h2),
    ensures
        h1 == h2,
        h1 == lowest_free_handle(m),
{
    if h1 < h2 {
        assert(m.contains_key(h1));
    } else if h2 < h1 {
        assert(m.contains_key(h2));
    }
    let h = lowest_free_handle(m);
    if h < h1 {
        assert(m.contains_key(h));
    } else if h1 < h {
        assert(m.contains_key(h1));
    }
}

/// Whether every handle up to [`MAX_HANDLE`] denotes an object.
pub open spec fn is_full<D>(m: Map<u64, ProxyUserData<D>>) -> bool {
    forall|g: u64| 1 <= g <= MAX_HANDLE ==> #[trigger] m.contains_key(g)
}

/// How the contents of a table may change over time: cells are only handed
/// out upwards, and an entry of the later table either stood unchanged in
/// identity in the earlier one or has a cell that the earlier one had not
/// handed out yet.
pub open spec fn evolves<D>(
    m0: Map<u64, ProxyUserData<D>>,
    next0: u64,
    m1: Map<u64, ProxyUserData<D>>,
    next1: u64,
) -> bool {
    &&& next0 <= next1
    &&& forall|p: u64| #[trigger]
        m1.contains_key(p) ==> m1[p].alive >= next0 || (m0.contains_key(p) && same_entry(
            m0[p],
            m1[p],
        ))
}

/// Evolving is reflexive.
pub proof fn lemma_evolves_refl<D>(m: Map<u64, ProxyUserData<D>>, next: u64)
    ensures
        evolves(m, next, m, next),
{
}

/// Evolving is transitive, as long as cells are handed out in order.
pub proof fn lemma_evolves_trans<D>(
    m0: Map<u64, ProxyUserData<D>>,
    next0: u64,
    m1: Map<u64, ProxyUserData<D>>,
    next1: u64,
    m2: Map<u64, ProxyUserData<D>>,
    next2: u64,
)
    requires
        evolves(m0, next0, m1, next1),
        evolves(m1, next1, m2, next2),
    ensures
        evolves(m0, next0, m2, next2),
{
    assert forall|p: u64| #[trigger] m2.contains_key(p) implies m2[p].alive >= next0 || (
    m0.contains_key(p) && same_entry(m0[p], m2[p])) by {
        if m2[p].alive < next1 {
            assert(m1.contains_key(p));
        }
    }
}

/// The objects of a connection, by handle.
pub struct ObjectTable<D> {
    connection: u64,
    slots: Vec<Option<ProxyUserData<D>>>,
    next_cell: u64,
}

impl<D> ObjectTable<D> {
    /// The live objects, by handle.
    pub closed spec fn view(&self) -> Map<u64, ProxyUserData<D>> {
        Map::new(
            |p: u64| 1 <= p <= self.slots@.len() && self.slots@[p - 1] is Some,
            |p: u64| self.slots@[p - 1]->0,
        )
    }

    /// The cell that the next registration takes.
    pub closed spec fn next_cell(&self) -> u64 {
        self.next_cell
    }

    /// The number of the connection that the table belongs to.
    pub closed spec fn connection(&self) -> u64 {
        self.connection
    }

    /// The bound on the storage that the handles rely on.
    pub closed spec fn repr_wf(&self) -> bool {
        self.slots@.len() <= MAX_HANDLE
    }

    /// The invariant of the table.
    pub open spec fn wf(&self) -> bool {
        &&& self.repr_wf()
        &&& entries_wf(self@, self.next_cell())
    }

    /// Whether an identity denotes a live object of this table.
    pub open spec fn is_alive_spec(&self, oid: InnerObjectId) -> bool {
        is_alive_in(self.connection(), self@, oid)
    }

    /// The table of a connection, without objects. Cell 0 is left to the
    /// root object of the connection, which has no entry.
    pub fn new(connection: u64) -> (t: Self)
        ensures
            t.wf(),
            t@ == Map::<u64, ProxyUserData<D>>::empty(),
            t.next_cell() == 1,
            t.connection() == connection,
    {
        let t = ObjectTable { connection, slots: Vec::new(), next_cell: 1 };
        assert(t@ =~= Map::<u64, ProxyUserData<D>>::empty());
        t
    }

    /// The number of the connection that the table belongs to.
    pub fn connection_number(&self) -> (c: u64)
        ensures
            c == self.connection(),
    {
        self.connection
    }

    /// The cell that the next registration takes.
    pub fn upcoming_cell(&self) -> (c: u64)
        ensures
            c == self.next_cell(),
    {
        self.next_cell
    }

    /// The entry at a handle.
    pub fn lookup(&self, ptr: u64) -> (r: Option<&ProxyUserData<D>>)
        ensures
            self@.contains_key(ptr) ==> r == Some(&self@[ptr]),
            !self@.contains_key(ptr) ==> r is None,
    {
        if ptr == 0 || ptr > self.slots.len() as u64 {
            return None;
        }
        let i = (ptr - 1) as usize;
        match &self.slots[i] {
            Some(e) => Some(e),
            None => None,
        }
    }

    /// The handle of the live object with a wire number.
    pub fn find(&self, id: u32) -> (r: Option<u64>)
        requires
            self.wf(),
        ensures
            match r {
                Some(p) => self@.contains_key(p) && self@[p].id == id,
                None => !has_id(self@, id),
            },
    {
        let mut i: usize = 0;
        while i < self.slots.len()
            invariant
                i <= self.slots.len(),
                self.wf(),
                forall|p: u64| 1 <= p <= i && #[trigger] self@.contains_key(p) ==> self@[p].id != id,
            decreases self.slots.len() - i,
        {
            if let Some(e) = &self.slots[i] {
                if e.id == id {
                    assert(self@.contains_key((i + 1) as u64));
                    return Some((i + 1) as u64);
                }
            }
            i = i + 1;
        }
        None
    }

    /// Whether an identity denotes a live object of this table.
    pub fn is_alive(&self, oid: &InnerObjectId) -> (r: bool)
        ensures
            r == self.is_alive_spec(*oid),
    {
        match (self.lookup(oid.ptr), oid.alive) {
            (Some(e), Some(cell)) => oid.connection == self.connection && e.alive == cell && e.id
                == oid.id && e.interface == oid.interface,
            _ => false,
        }
    }

    fn lowest_free(&self) -> (i: usize)
        ensures
            i <= self.slots@.len(),
            i < self.slots@.len() ==> self.slots@[i as int] is None,
            forall|k: int| 0 <= k < i ==> self.slots@[k] is Some,
    {
        let mut i: usize = 0;
        while i < self.slots.len()
            invariant
                i <= self.slots.len(),
                forall|k: int| 0 <= k < i ==> self.slots@[k] is Some,
            decreases self.slots.len() - i,
        {
            if self.slots[i].is_none() {
                return i;
            }
            i = i + 1;
        }
        i
    }

    /// The handle that the next registration takes.
    pub fn next_handle(&self) -> (h: u64)
        requires
            self.wf(),
        ensures
            is_lowest_free(self@, h),
            h == lowest_free_handle(self@),
    {
        let i = self.lowest_free();
        let h = i as u64 + 1;
        assert(!self@.contains_key(h));
        assert forall|g: u64| 1 <= g < h implies #[trigger] self@.contains_key(g) by {
            assert(self.slots@[g - 1] is Some);
        }
        proof {
            lemma_lowest_free_unique(self@, h, h);
        }
        h
    }

    /// Whether the table has a liveness cell and a handle left for one more
    /// object.
    pub fn has_room(&self) -> (r: bool)
        requires
            self.wf(),
        ensures
            r == (self.next_cell() != u64::MAX && !is_full(self@)),
    {
        let i = self.lowest_free();
        if i as u64 >= MAX_HANDLE {
            assert forall|g: u64| 1 <= g <= MAX_HANDLE implies #[trigger] self@.contains_key(g) by {
                assert(self.slots@[g - 1] is Some);
            }
            false
        } else {
            assert(!self@.contains_key((i + 1) as u64));
            self.next_cell != u64::MAX
        }
    }

    /// Creates the entry of a new object, with a fresh liveness cell, at the
    /// lowest free handle, and returns the identity of the object.
    ///
    /// Nothing is registered, and `None` returned, exactly when the wire
    /// number is 0 or names a live object, when no cell is left, or when no
    /// handle is left.
    pub fn register(&mut self, id: u32, version: u32, interface: InterfaceId, data: Option<D>) -> (r:
        Option<InnerObjectId>)
        requires
            old(self).wf(),
        ensures
            final(self).wf(),
            final(self).connection() == old(self).connection(),
            r is None <==> id == 0 || has_id(old(self)@, id) || old(self).next_cell() == u64::MAX
                || is_full(old(self)@),
            r is None ==> *final(self) == *old(self),
            r matches Some(oid) ==> {
                &&& is_lowest_free(old(self)@, oid.ptr)
                &&& oid.ptr == lowest_free_handle(old(self)@)
                &&& oid == identity(old(self).connection(), oid.ptr, final(self)@[oid.ptr])
                &&& final(self)@ == old(self)@.insert(
                    oid.ptr,
                    ProxyUserData { id, version, alive: old(self).next_cell(), interface, data },
                )
                &&& final(self).next_cell() == old(self).next_cell() + 1
            },
            evolves(old(self)@, old(self).next_cell(), final(self)@, final(self).next_cell()),
    {
        if id == 0 || self.next_cell == u64::MAX {
            return None;
        }
        if self.find(id).is_some() {
            return None;
        }
        let i = self.lowest_free();
        if i as u64 >= MAX_HANDLE {
            assert forall|g: u64| 1 <= g <= MAX_HANDLE implies #[trigger] self@.contains_key(g) by {
                assert(self.slots@[g - 1] is Some);
            }
            return None;
        }
        let ptr = (i + 1) as u64;
        assert(!self@.contains_key(ptr));
        assert(!is_full(self@));
        assert forall|g: u64| 1 <= g < ptr implies #[trigger] self@.contains_key(g) by {
            assert(self.slots@[g - 1] is Some);
        }
        proof {
            lemma_lowest_free_unique(self@, ptr, ptr);
        }
        let cell = self.next_cell;
        let entry = ProxyUserData { id, version, alive: cell, interface, data };
        if i < self.slots.len() {
            self.slots.set(i, Some(entry));
        } else {
            self.slots.push(Some(entry));
        }
        self.next_cell = cell + 1;
        assert(self@ =~= old(self)@.insert(ptr, entry));
        assert forall|p: u64| #[trigger] self@.contains_key(p) implies 1 <= p <= MAX_HANDLE
            && self@[p].id != 0 && 1 <= self@[p].alive < self.next_cell() by {
            if p != ptr {
                assert(old(self)@.contains_key(p));
            }
        }
        assert forall|p: u64, q: u64|
            #![trigger self@.contains_key(p), self@.contains_key(q)]
            self@.contains_key(p) && self@.contains_key(q) && p != q implies self@[p].id
            != self@[q].id && self@[p].alive != self@[q].alive by {
            if p != ptr {
                assert(old(self)@.contains_key(p));
            }
            if q != ptr {
                assert(old(self)@.contains_key(q));
            }
        }
        assert forall|p: u64| #[trigger] self@.contains_key(p) implies self@[p].alive
            >= old(self).next_cell() || (old(self)@.contains_key(p) && same_entry(
            old(self)@[p],
            self@[p],
        )) by {
            if p != ptr {
                assert(old(self)@.contains_key(p));
            }
        }
        Some(InnerObjectId { connection: self.connection, id, ptr, alive: Some(cell), interface })
    }

    /// Removes the entry at a handle and returns it, so that the caller can
    /// tell the handler that the object is gone. From then on no identity of
    /// the object is alive. Returns `None`, and changes nothing, exactly when
    /// the handle denotes no live object.
    pub fn invalidate(&mut self, ptr: u64) -> (r: Option<ProxyUserData<D>>)
        requires
            old(self).wf(),
        ensures
            final(self).wf(),
            final(self).connection() == old(self).connection(),
            final(self).next_cell() == old(self).next_cell(),
            final(self)@ == old(self)@.remove(ptr),
            old(self)@.contains_key(ptr) ==> r == Some(old(self)@[ptr]),
            !old(self)@.contains_key(ptr) ==> r is None,
            evolves(old(self)@, old(self).next_cell(), final(self)@, final(self).next_cell()),
    {
        if ptr == 0 || ptr > self.slots.len() as u64 {
            assert(self@ =~= old(self)@.remove(ptr));
            return None;
        }
        let i = (ptr - 1) as usize;
        self.slots.push(None);
        let taken = self.slots.swap_remove(i);
        assert(self.slots@ =~= old(self).slots@.update(i as int, None));
        assert(self@ =~= old(self)@.remove(ptr));
        assert forall|p: u64| #[trigger] self@.contains_key(p) implies old(self)@.contains_key(p)
            && self@[p] == old(self)@[p] by {}
        taken
    }

    /// Puts a handler in the place of the one that the object at a handle
    /// has, and returns the earlier one. Returns `Err` with the handler, and
    /// changes nothing, exactly when the handle denotes no live object.
    pub fn attach(&mut self, ptr: u64, data: D) -> (r: Result<Option<D>, D>)
        requires
            old(self).wf(),
        ensures
            final(self).wf(),
            final(self).connection() == old(self).connection(),
            final(self).next_cell() == old(self).next_cell(),
            match r {
                Ok(prev) => {
                    &&& old(self)@.contains_key(ptr)
                    &&& prev == old(self)@[ptr].data
                    &&& final(self)@ == old(self)@.insert(
                        ptr,
                        ProxyUserData { data: Some(data), ..old(self)@[ptr] },
                    )
                },
                Err(d) => !old(self)@.contains_key(ptr) && d == data && *final(self) == *old(self),
            },
            evolves(old(self)@, old(self).next_cell(), final(self)@, final(self).next_cell()),
    {
        if ptr == 0 || ptr > self.slots.len() as u64 {
            return Err(data);
        }
        let i = (ptr - 1) as usize;
        if self.slots[i].is_none() {
            return Err(data);
        }
        self.slots.push(None);
        let taken = self.slots.swap_remove(i);
        let e = taken.unwrap();
        let ProxyUserData { id, version, alive, interface, data: prev } = e;
        let entry = ProxyUserData { id, version, alive, interface, data: Some(data) };
        self.slots.set(i, Some(entry));
        assert(self.slots@ =~= old(self).slots@.update(i as int, Some(entry)));
        assert(self@ =~= old(self)@.insert(ptr, entry));
        assert forall|p: u64| #[trigger] self@.contains_key(p) implies old(self)@.contains_key(p)
            && same_entry(old(self)@[p], self@[p]) by {}
        Ok(prev)
    }

    /// Removes every entry, and returns the identity and the handler of
    /// each object that was alive, each exactly once, so that the handlers
    /// can be told that their objects are gone.
    pub fn drain(&mut self) -> (r: Vec<(InnerObjectId, Option<D>)>)
        requires
            old(self).wf(),
        ensures
            final(self).wf(),
            final(self)@ == Map::<u64, ProxyUserData<D>>::empty(),
            final(self).connection() == old(self).connection(),
            final(self).next_cell() == old(self).next_cell(),
            forall|p: u64| #[trigger]
                old(self)@.contains_key(p) ==> exists|i: int|
                    0 <= i < r@.len() && (#[trigger] r@[i]).0 == identity(
                        old(self).connection(),
                        p,
                        old(self)@[p],
                    ),
            forall|i: int|
                0 <= i < r@.len() ==> {
                    &&& old(self)@.contains_key((#[trigger] r@[i]).0.ptr)
                    &&& r@[i].0 == identity(
                        old(self).connection(),
                        r@[i].0.ptr,
                        old(self)@[r@[i].0.ptr],
                    )
                    &&& r@[i].1 == old(self)@[r@[i].0.ptr].data
                },
            forall|i: int, j: int|
                0 <= i < j < r@.len() ==> (#[trigger] r@[i]).0.ptr != (#[trigger] r@[j]).0.ptr,
            evolves(old(self)@, old(self).next_cell(), final(self)@, final(self).next_cell()),
    {
        let mut out: Vec<(InnerObjectId, Option<D>)> = Vec::new();
        while self.slots.len() > 0
            invariant
                self.slots@.len() <= old(self).slots@.len(),
                self.slots@ == old(self).slots@.take(self.slots@.len() as int),
                self.next_cell == old(self).next_cell,
                self.connection == old(self).connection,
                old(self).wf(),
                forall|p: u64|
                    self.slots@.len() < p && #[trigger] old(self)@.contains_key(p) ==> exists|
                        i: int,
                    |
                        0 <= i < out@.len() && (#[trigger] out@[i]).0 == identity(old(self).connection(), p, old(self)@[p]),
                forall|i: int|
                    0 <= i < out@.len() ==> {
                        &&& old(self)@.contains_key((#[trigger] out@[i]).0.ptr)
                        &&& out@[i].0.ptr > self.slots@.len()
                        &&& out@[i].0 == identity(
                            old(self).connection(),
                            out@[i].0.ptr,
                            old(self)@[out@[i].0.ptr],
                        )
                        &&& out@[i].1 == old(self)@[out@[i].0.ptr].data
                    },
                forall|i: int, j: int|
                    0 <= i < j < out@.len() ==> (#[trigger] out@[i]).0.ptr != (
                    #[trigger] out@[j]).0.ptr,
            decreases self.slots@.len(),
        {
            let ptr = self.slots.len() as u64;
            let ghost before = out@;
            let slot = self.slots.pop().unwrap();
            assert(self.slots@ =~= old(self).slots@.take(self.slots@.len() as int));
            match slot {
                Some(e) => {
                    assert(old(self)@.contains_key(ptr));
                    assert(old(self)@[ptr] == e);
                    let ProxyUserData { id, version, alive, interface, data } = e;
                    out.push(
                        (
                            InnerObjectId {
                                connection: self.connection,
                                id,
                                ptr,
                                alive: Some(alive),
                                interface,
                            },
                            data,
                        ),
                    );
                    assert(out@[out@.len() - 1].0 == identity(old(self).connection(), ptr, old(self)@[ptr]));
                    assert forall|p: u64|
                        self.slots@.len() < p && #[trigger] old(self)@.contains_key(
                            p,
                        ) implies exists|i: int|
                        0 <= i < out@.len() && (#[trigger] out@[i]).0 == identity(
                            old(self).connection(),
                            p,
                            old(self)@[p],
                        ) by {
                        if p == ptr {
                            assert(out@[out@.len() - 1].0 == identity(old(self).connection(), p, old(self)@[p]));
                        } else {
                            let i = choose|i: int|
                                0 <= i < before.len() && (#[trigger] before[i]).0 == identity(
                                    old(self).connection(),
                                    p,
                                    old(self)@[p],
                                );
                            assert(out@[i] == before[i]);
                        }
                    }
                    assert forall|i: int, j: int| 0 <= i < j < out@.len() implies (
                    #[trigger] out@[i]).0.ptr != (#[trigger] out@[j]).0.ptr by {
                        if j < before.len() {
                            assert(out@[i] == before[i] && out@[j] == before[j]);
                        } else {
                            assert(out@[i] == before[i]);
                        }
                    }
                },
                None => {
                    assert(!old(self)@.contains_key(ptr));
                    assert forall|p: u64|
                        self.slots@.len() < p && #[trigger] old(self)@.contains_key(
                            p,
                        ) implies exists|i: int|
                        0 <= i < out@.len() && (#[trigger] out@[i]).0 == identity(
                            old(self).connection(),
                            p,
                            old(self)@[p],
                        ) by {
                        assert(p != ptr);
                    }
                },
            }
        }
        assert(self@ =~= Map::<u64, ProxyUserData<D>>::empty());
        out
    }
}

} // verus!
