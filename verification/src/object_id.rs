//! Identities of protocol objects.
//!
//! An object is named on the wire by a 32-bit number that the peer may hand
//! out again once the object is gone, and locally by a handle into the object
//! table that is recycled in the same way. Neither is a sound basis for
//! equality. A managed identity therefore carries the number of its liveness
//! cell, which the table hands out once and never again; and every identity
//! carries the number of its connection, which tells the objects of one
//! connection from those of every other.

use vstd::prelude::*;

verus! {

/// Position of an interface in the [`crate::protocol::Registry`].
pub type InterfaceId = usize;

/// The interface of objects whose interface is not known; it has no messages.
pub const ANONYMOUS_INTERFACE: InterfaceId = 0;

/// An ID representing a protocol object.
#[derive(Clone, Copy, Debug)]
pub struct InnerObjectId {
    /// The number of the connection that the object belongs to.
    pub connection: u64,
    /// The number that names the object on the wire; 0 is the null object.
    pub id: u32,
    /// The handle of the object's entry in the object table; 0 is null.
    pub ptr: u64,
    /// The liveness cell of a managed object; `None` for a foreign object.
    pub alive: Option<u64>,
    /// The interface that the object implements.
    pub interface: InterfaceId,
}

/// What a hasher is fed for an identity: equal identities give equal keys.
#[derive(Clone, Copy, Debug, PartialEq, Eq, Structural, Hash)]
pub enum HashKey {
    /// A managed object, by its connection and its liveness cell.
    Managed { connection: u64, cell: u64 },
    /// A foreign object, by its connection, its number and its handle.
    Foreign { connection: u64, id: u32, ptr: u64 },
}

impl PartialEq for InnerObjectId {
    /// Identities of different connections are never equal. Of one
    /// connection, two managed identities are equal when they share a
    /// liveness cell; two foreign ones when handle, number and interface
    /// agree; a managed and a foreign one never are.
    fn eq(&self, other: &Self) -> (r: bool) {
        self.connection == other.connection && match (self.alive, other.alive) {
            (Some(a), Some(b)) => a == b,
            (None, None) => self.ptr == other.ptr && self.id == other.id && self.interface
                == other.interface,
            _ => false,
        }
    }
}

impl Eq for InnerObjectId {

}

impl vstd::std_specs::cmp::PartialEqSpecImpl for InnerObjectId {
    open spec fn obeys_eq_spec() -> bool {
        true
    }

    open spec fn eq_spec(&self, other: &Self) -> bool {
        self.same_object(other)
    }
}

impl InnerObjectId {
    /// The identity of no object: null handle, number 0, anonymous interface,
    /// no liveness cell, and the connection number 0.
    pub open spec fn null_spec() -> Self {
        InnerObjectId { connection: 0, id: 0, ptr: 0, alive: None, interface: ANONYMOUS_INTERFACE }
    }

    /// What `==` means on identities: identities of different connections
    /// never denote the same object; of one connection, two managed
    /// identities denote the same object when they share a liveness cell,
    /// two foreign ones when handle, number and interface agree, and a
    /// managed and a foreign one never do.
    pub open spec fn same_object(&self, other: &Self) -> bool {
        self.connection == other.connection && match (self.alive, other.alive) {
            (Some(a), Some(b)) => a == b,
            (None, None) => self.ptr == other.ptr && self.id == other.id && self.interface
                == other.interface,
            _ => false,
        }
    }

    /// Whether the identity is managed, that is, carries a liveness cell.
    pub open spec fn is_managed(&self) -> bool {
        self.alive is Some
    }

    /// What is hashed for an identity.
    pub open spec fn hash_key_spec(&self) -> HashKey {
        match self.alive {
            Some(cell) => HashKey::Managed { connection: self.connection, cell },
            None => HashKey::Foreign { connection: self.connection, id: self.id, ptr: self.ptr },
        }
    }

    /// Whether the identity has a null handle.
    pub fn is_null(&self) -> (r: bool)
        ensures
            r == (self.ptr == 0),
    {
        self.ptr == 0
    }

    /// The interface of the object.
    pub fn interface(&self) -> (r: InterfaceId)
        ensures
            r == self.interface,
    {
        self.interface
    }

    /// The number that names the object on the wire.
    pub fn protocol_id(&self) -> (r: u32)
        ensures
            r == self.id,
    {
        self.id
    }

    /// The value to hash for this identity.
    pub fn hash_key(&self) -> (r: HashKey)
        ensures
            r == self.hash_key_spec(),
    {
        match self.alive {
            Some(cell) => HashKey::Managed { connection: self.connection, cell },
            None => HashKey::Foreign { connection: self.connection, id: self.id, ptr: self.ptr },
        }
    }

    /// Equality of identities is an equivalence relation.
    pub proof fn lemma_eq_is_equivalence(a: Self, b: Self, c: Self)
        ensures
            a.same_object(&a),
            a.same_object(&b) == b.same_object(&a),
            a.same_object(&b) && b.same_object(&c) ==> a.same_object(&c),
    {
    }

    /// Hashing agrees with equality: equal identities have the same hash key.
    pub proof fn lemma_hash_agrees_with_eq(a: Self, b: Self)
        requires
            a.same_object(&b),
        ensures
            a.hash_key_spec() == b.hash_key_spec(),
    {
    }
}

} // verus!
