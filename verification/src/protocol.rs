//! The protocol description that the connection reads: interfaces, the
//! signatures of their messages, and the arguments that a message carries.

use crate::bytes::bytes_eq;
use crate::object_id::InterfaceId;
use vstd::prelude::*;

verus! {

/// Whether an argument may be null.
#[derive(Clone, Copy, Debug, PartialEq, Eq, Structural)]
pub enum AllowNull {
    Yes,
    No,
}

/// The type of one argument of a message.
#[derive(Clone, Copy, Debug, PartialEq, Eq, Structural)]
pub enum ArgumentType {
    /// A signed 32-bit integer.
    Int,
    /// An unsigned 32-bit integer.
    Uint,
    /// A signed 24.8 fixed-point number.
    Fixed,
    /// A string of bytes without NUL.
    Str(AllowNull),
    /// An existing object.
    Object(AllowNull),
    /// An object that the message creates.
    NewId(AllowNull),
    /// An array of bytes.
    Array(AllowNull),
    /// A file descriptor, which travels beside the bytes of the message.
    Fd,
}

/// The description of one request or event of an interface.
#[derive(Clone, Debug)]
pub struct MessageDesc {
    /// Name of the message.
    pub name: Vec<u8>,
    /// Types of the arguments, in order.
    pub signature: Vec<ArgumentType>,
    /// Whether the message retires the object that it is sent on.
    pub is_destructor: bool,
    /// The interface of the object that the message creates, where it is
    /// fixed; `None` also for a message that creates an object of an
    /// interface chosen by the sender.
    pub child_interface: Option<InterfaceId>,
    /// The interfaces of the `Object` arguments, in the order of the
    /// signature.
    pub arg_interfaces: Vec<InterfaceId>,
}

/// The description of an interface.
#[derive(Clone, Debug)]
pub struct Interface {
    /// Name of the interface.
    pub name: Vec<u8>,
    /// Highest version of the interface that this description covers.
    pub version: u32,
    /// The requests, by opcode.
    pub requests: Vec<MessageDesc>,
    /// The events, by opcode.
    pub events: Vec<MessageDesc>,
}

/// Number of `Object` arguments in a signature.
pub open spec fn count_objects(sig: Seq<ArgumentType>) -> nat
    decreases sig.len(),
{
    if sig.len() == 0 {
        0
    } else {
        count_objects(sig.drop_last()) + if sig.last() is Object {
            1nat
        } else {
            0nat
        }
    }
}

/// Whether a signature holds a `NewId` argument.
pub open spec fn creates_object(sig: Seq<ArgumentType>) -> bool {
    exists|i: int| 0 <= i < sig.len() && #[trigger] sig[i] is NewId
}

/// Largest number of arguments of a message.
pub const MAX_ARGS: usize = 0xFFFF;

/// Whether a signature holds at most one `NewId` argument.
pub open spec fn at_most_one_new_id(sig: Seq<ArgumentType>) -> bool {
    forall|i: int, j: int|
        0 <= i < j < sig.len() ==> !(#[trigger] sig[i] is NewId && #[trigger] sig[j] is NewId)
}

/// A message description fits a registry of `n` interfaces: every interface
/// that it names exists, it names one for each `Object` argument, and the
/// message has at most [`MAX_ARGS`] arguments and creates at most one
/// object.
pub open spec fn desc_valid(d: MessageDesc, n: nat) -> bool {
    &&& d.signature@.len() <= MAX_ARGS
    &&& at_most_one_new_id(d.signature@)
    &&& d.child_interface matches Some(c) ==> c < n
    &&& d.arg_interfaces@.len() == count_objects(d.signature@)
    &&& forall|k: int| 0 <= k < d.arg_interfaces@.len() ==> #[trigger] d.arg_interfaces@[k] < n
}

/// The requests, or the events, of an interface fit a registry of `n`
/// interfaces: each description is valid, and an opcode names each.
pub open spec fn descs_valid(ds: Seq<MessageDesc>, n: nat) -> bool {
    &&& ds.len() <= 0x1_0000
    &&& forall|k: int| 0 <= k < ds.len() ==> desc_valid(#[trigger] ds[k], n)
}

/// An interface fits a registry of `n` interfaces.
pub open spec fn interface_valid(i: Interface, n: nat) -> bool {
    &&& descs_valid(i.requests@, n)
    &&& descs_valid(i.events@, n)
}

/// The name of the anonymous interface.
pub open spec fn anonymous_name() -> Seq<u8> {
    seq![60u8, 97u8, 110u8, 111u8, 110u8, 121u8, 109u8, 111u8, 117u8, 115u8, 62u8]
}

/// Whether an interface is the anonymous one: it has that name, the version
/// 0 and no messages.
pub open spec fn is_anonymous(i: Interface) -> bool {
    &&& i.name@ == anonymous_name()
    &&& i.version == 0
    &&& i.requests@.len() == 0
    &&& i.events@.len() == 0
}

/// What makes a sequence of interfaces a registry: the anonymous interface
/// comes first, every description is valid, and no two interfaces share a
/// name.
pub open spec fn registry_valid(s: Seq<Interface>) -> bool {
    &&& s.len() > 0
    &&& is_anonymous(s[0])
    &&& forall|i: int| 0 <= i < s.len() ==> interface_valid(#[trigger] s[i], s.len())
    &&& forall|i: int, j: int|
        0 <= i < j < s.len() ==> (#[trigger] s[i]).name@ != (#[trigger] s[j]).name@
}

/// The interfaces known to a connection. An interface is named by its
/// position; since names are unique, two positions name the same interface
/// exactly when they are equal.
#[derive(Clone, Debug)]
pub struct Registry {
    interfaces: Vec<Interface>,
}

/// Whether two interfaces are the same.
pub fn same_interface(a: InterfaceId, b: InterfaceId) -> (r: bool)
    ensures
        r == (a == b),
{
    a == b
}

fn count_objects_exec(sig: &Vec<ArgumentType>) -> (n: usize)
    ensures
        n == count_objects(sig@),
{
    let mut n: usize = 0;
    let mut i: usize = 0;
    while i < sig.len()
        invariant
            i <= sig.len(),
            n == count_objects(sig@.take(i as int)),
            n <= i,
        decreases sig.len() - i,
    {
        assert(sig@.take(i + 1).drop_last() =~= sig@.take(i as int));
        if let ArgumentType::Object(_) = sig[i] {
            n = n + 1;
        }
        i = i + 1;
    }
    assert(sig@.take(i as int) =~= sig@);
    n
}

fn creates_at_most_one(sig: &Vec<ArgumentType>) -> (r: bool)
    ensures
        r == at_most_one_new_id(sig@),
{
    let mut seen: Option<usize> = None;
    let mut i: usize = 0;
    while i < sig.len()
        invariant
            i <= sig.len(),
            seen matches Some(k) ==> k < i && sig@[k as int] is NewId,
            seen is None ==> forall|k: int| 0 <= k < i ==> !(#[trigger] sig@[k] is NewId),
            forall|k: int, l: int|
                0 <= k < l < i ==> !(#[trigger] sig@[k] is NewId && #[trigger] sig@[l] is NewId),
        decreases sig.len() - i,
    {
        if let ArgumentType::NewId(_) = sig[i] {
            if let Some(k) = seen {
                assert(sig@[k as int] is NewId && sig@[i as int] is NewId);
                return false;
            }
            seen = Some(i);
        }
        i = i + 1;
    }
    true
}

fn desc_is_valid(d: &MessageDesc, n: usize) -> (r: bool)
    ensures
        r == desc_valid(*d, n as nat),
{
    if d.signature.len() > MAX_ARGS || !creates_at_most_one(&d.signature) {
        return false;
    }
    if let Some(c) = d.child_interface {
        if c >= n {
            return false;
        }
    }
    if d.arg_interfaces.len() != count_objects_exec(&d.signature) {
        return false;
    }
    let mut k: usize = 0;
    while k < d.arg_interfaces.len()
        invariant
            k <= d.arg_interfaces.len(),
            forall|j: int| 0 <= j < k ==> #[trigger] d.arg_interfaces@[j] < n,
        decreases d.arg_interfaces.len() - k,
    {
        if d.arg_interfaces[k] >= n {
            return false;
        }
        k = k + 1;
    }
    true
}

fn descs_are_valid(ds: &Vec<MessageDesc>, n: usize) -> (r: bool)
    ensures
        r == descs_valid(ds@, n as nat),
{
    if ds.len() > 0x1_0000 {
        return false;
    }
    let mut k: usize = 0;
    while k < ds.len()
        invariant
            k <= ds.len(),
            forall|j: int| 0 <= j < k ==> desc_valid(#[trigger] ds@[j], n as nat),
        decreases ds.len() - k,
    {
        if !desc_is_valid(&ds[k], n) {
            return false;
        }
        k = k + 1;
    }
    true
}

fn name_is_fresh(all: &Vec<Interface>, j: usize) -> (r: bool)
    requires
        j < all.len(),
    ensures
        r == (forall|i: int| 0 <= i < j ==> (#[trigger] all@[i]).name@ != all@[j as int].name@),
{
    let mut i: usize = 0;
    while i < j
        invariant
            i <= j,
            j < all.len(),
            forall|k: int| 0 <= k < i ==> (#[trigger] all@[k]).name@ != all@[j as int].name@,
        decreases j - i,
    {
        if bytes_eq(&all[i].name, &all[j].name) {
            return false;
        }
        i = i + 1;
    }
    true
}

fn anonymous_interface() -> (r: Interface)
    ensures
        is_anonymous(r),
{
    let name: Vec<u8> = vec![60u8, 97u8, 110u8, 111u8, 110u8, 121u8, 109u8, 111u8, 117u8, 115u8, 62u8];
    assert(name@ =~= anonymous_name());
    Interface { name, version: 0, requests: Vec::new(), events: Vec::new() }
}

impl Registry {
    /// The interfaces, by position.
    pub closed spec fn view(&self) -> Seq<Interface> {
        self.interfaces@
    }

    /// Every registry that this module builds is valid.
    pub open spec fn wf(&self) -> bool {
        registry_valid(self@)
    }

    /// Builds the registry that holds the anonymous interface at position 0
    /// and the given interfaces after it, in their order. The descriptions
    /// name interfaces by their position in the registry, so the first given
    /// interface is number 1. Returns `None` exactly when that sequence is
    /// not valid.
    pub fn new(interfaces: Vec<Interface>) -> (r: Option<Registry>)
        ensures
            r is Some <==> exists|a: Interface|
                is_anonymous(a) && registry_valid(seq![a] + interfaces@),
            r matches Some(reg) ==> {
                &&& reg.wf()
                &&& reg@.len() == interfaces@.len() + 1
                &&& forall|i: int| 1 <= i < reg@.len() ==> #[trigger] reg@[i] == interfaces@[i - 1]
            },
    {
        let mut rest = interfaces;
        let mut all: Vec<Interface> = Vec::new();
        let anon = anonymous_interface();
        let ghost a = anon;
        all.push(anon);
        all.append(&mut rest);
        assert(all@ =~= seq![a] + interfaces@);
        proof {
            assert forall|b: Interface| is_anonymous(b) implies registry_valid(seq![b] + interfaces@)
                == registry_valid(all@) by {
                lemma_valid_ignores_anonymous(a, b, interfaces@);
            }
        }
        let ghost owed = exists|a: Interface|
            is_anonymous(a) && registry_valid(seq![a] + interfaces@);
        assert(owed == registry_valid(all@));
        let n = all.len();
        let mut j: usize = 0;
        while j < n
            invariant
                j <= n,
                n == all.len(),
                n > 0,
                is_anonymous(all@[0]),
                owed == registry_valid(all@),
                owed == (exists|a: Interface|
                    is_anonymous(a) && registry_valid(seq![a] + interfaces@)),
                forall|i: int| 0 <= i < j ==> interface_valid(#[trigger] all@[i], n as nat),
                forall|i: int, k: int|
                    0 <= i < k < j ==> (#[trigger] all@[i]).name@ != (#[trigger] all@[k]).name@,
            decreases n - j,
        {
            if !descs_are_valid(&all[j].requests, n) || !descs_are_valid(&all[j].events, n) {
                assert(!interface_valid(all@[j as int], n as nat));
                return None;
            }
            if !name_is_fresh(&all, j) {
                let ghost i = choose|i: int| 0 <= i < j && all@[i].name@ == all@[j as int].name@;
                assert(all@[i].name@ == all@[j as int].name@);
                return None;
            }
            j = j + 1;
        }
        Some(Registry { interfaces: all })
    }

    /// Number of interfaces, the anonymous one included.
    pub fn len(&self) -> (n: usize)
        ensures
            n == self@.len(),
    {
        self.interfaces.len()
    }

    /// The interface at a position.
    pub fn get(&self, id: InterfaceId) -> (r: Option<&Interface>)
        ensures
            id < self@.len() ==> r == Some(&self@[id as int]),
            id >= self@.len() ==> r is None,
    {
        if id < self.interfaces.len() {
            Some(&self.interfaces[id])
        } else {
            None
        }
    }

    /// The position of the interface of a given name.
    pub fn lookup(&self, name: &Vec<u8>) -> (r: Option<InterfaceId>)
        ensures
            match r {
                Some(id) => id < self@.len() && self@[id as int].name@ == name@,
                None => forall|i: int| 0 <= i < self@.len() ==> (#[trigger] self@[i]).name@ != name@,
            },
    {
        let mut i: usize = 0;
        while i < self.interfaces.len()
            invariant
                i <= self.interfaces.len(),
                forall|k: int| 0 <= k < i ==> (#[trigger] self.interfaces@[k]).name@ != name@,
            decreases self.interfaces.len() - i,
        {
            if bytes_eq(&self.interfaces[i].name, name) {
                return Some(i);
            }
            i = i + 1;
        }
        None
    }

    /// In a valid registry two positions hold interfaces of the same name
    /// exactly when they are the same position.
    pub proof fn lemma_same_interface_by_name(&self, a: InterfaceId, b: InterfaceId)
        requires
            self.wf(),
            a < self@.len(),
            b < self@.len(),
        ensures
            (a == b) <==> self@[a as int].name@ == self@[b as int].name@,
    {
        if a < b {
            assert(self@[a as int].name@ != self@[b as int].name@);
        } else if b < a {
            assert(self@[b as int].name@ != self@[a as int].name@);
        }
    }
}

proof fn lemma_valid_ignores_anonymous(a: Interface, b: Interface, rest: Seq<Interface>)
    requires
        is_anonymous(a),
        is_anonymous(b),
    ensures
        registry_valid(seq![a] + rest) == registry_valid(seq![b] + rest),
{
    let s = seq![a] + rest;
    let t = seq![b] + rest;
    assert(s.len() == t.len());
    assert forall|i: int| 1 <= i < s.len() implies s[i] == t[i] by {}
    if registry_valid(s) {
        lemma_valid_transfer(s, t);
    }
    if registry_valid(t) {
        lemma_valid_transfer(t, s);
    }
}

proof fn lemma_valid_transfer(s: Seq<Interface>, t: Seq<Interface>)
    requires
        registry_valid(s),
        s.len() == t.len(),
        is_anonymous(t[0]),
        forall|i: int| 1 <= i < s.len() ==> s[i] == t[i],
    ensures
        registry_valid(t),
{
    assert forall|i: int| 0 <= i < t.len() implies interface_valid(#[trigger] t[i], t.len()) by {
        if i > 0 {
            assert(interface_valid(s[i], s.len()));
        }
    }
    assert forall|i: int, j: int| 0 <= i < j < t.len() implies (#[trigger] t[i]).name@ != (
    #[trigger] t[j]).name@ by {
        assert(s[i].name@ != s[j].name@);
        assert(s[0].name@ == t[0].name@);
    }
}

} // verus!
