//! Messages and their arguments.

use crate::object_id::{InnerObjectId, InterfaceId};
use crate::protocol::{ArgumentType, MAX_ARGS};
use smallvec::SmallVec;
use vstd::prelude::*;

verus! {

/// One argument of a message.
#[derive(Clone, Debug, PartialEq, Eq)]
pub enum Argument {
    /// A signed 32-bit integer.
    Int(i32),
    /// An unsigned 32-bit integer.
    Uint(u32),
    /// A signed 24.8 fixed-point number, as its 32 bits.
    Fixed(i32),
    /// A string of bytes without NUL, or null.
    Str(Option<Vec<u8>>),
    /// An existing object, or the null object.
    Object(InnerObjectId),
    /// An object that the message creates.
    NewId(InnerObjectId),
    /// An array of bytes, or null.
    Array(Option<Vec<u8>>),
    /// A file descriptor.
    Fd(i32),
}

/// An argument as a mathematical value.
pub enum ArgumentView {
    Int(i32),
    Uint(u32),
    Fixed(i32),
    Str(Option<Seq<u8>>),
    Object(InnerObjectId),
    NewId(InnerObjectId),
    Array(Option<Seq<u8>>),
    Fd(i32),
}

pub open spec fn bytes_view(b: Option<Vec<u8>>) -> Option<Seq<u8>> {
    match b {
        Some(v) => Some(v@),
        None => None,
    }
}

impl View for Argument {
    type V = ArgumentView;

    open spec fn view(&self) -> ArgumentView {
        match *self {
            Argument::Int(i) => ArgumentView::Int(i),
            Argument::Uint(u) => ArgumentView::Uint(u),
            Argument::Fixed(f) => ArgumentView::Fixed(f),
            Argument::Str(s) => ArgumentView::Str(bytes_view(s)),
            Argument::Object(o) => ArgumentView::Object(o),
            Argument::NewId(o) => ArgumentView::NewId(o),
            Argument::Array(a) => ArgumentView::Array(bytes_view(a)),
            Argument::Fd(h) => ArgumentView::Fd(h),
        }
    }
}

/// Whether an argument is of the kind that a type asks for. Whether it may
/// be null is not looked at here.
pub open spec fn arg_has_type(arg: ArgumentView, ty: ArgumentType) -> bool {
    match (ty, arg) {
        (ArgumentType::Int, ArgumentView::Int(_)) => true,
        (ArgumentType::Uint, ArgumentView::Uint(_)) => true,
        (ArgumentType::Fixed, ArgumentView::Fixed(_)) => true,
        (ArgumentType::Str(_), ArgumentView::Str(_)) => true,
        (ArgumentType::Object(_), ArgumentView::Object(_)) => true,
        (ArgumentType::NewId(_), ArgumentView::NewId(_)) => true,
        (ArgumentType::Array(_), ArgumentView::Array(_)) => true,
        (ArgumentType::Fd, ArgumentView::Fd(_)) => true,
        _ => false,
    }
}

/// Whether a list of arguments has the arity and the kinds of a signature.
pub open spec fn signature_matches(sig: Seq<ArgumentType>, args: Seq<ArgumentView>) -> bool {
    &&& sig.len() == args.len()
    &&& forall|i: int| 0 <= i < sig.len() ==> arg_has_type(#[trigger] args[i], sig[i])
}

/// The arguments of a message, in order. They are kept in a
/// `smallvec::SmallVec`, which holds up to four of them inline. The verifier
/// does not look inside it: what a list holds is known through
/// [`arg_items`] alone, by what the functions below say of the calls that
/// they make.
#[verifier::external_body]
#[derive(Debug, PartialEq, Eq)]
pub struct ArgList {
    items: SmallVec<[Argument; 4]>,
}

/// The arguments that a list holds, first to last.
pub uninterp spec fn arg_items(list: ArgList) -> Seq<Argument>;

/// `SmallVec::new`: a vector without items.
#[verifier::external_body]
fn arg_list_empty() -> (list: ArgList)
    ensures
        arg_items(list) == Seq::<Argument>::empty(),
{
    ArgList { items: SmallVec::new() }
}

/// `SmallVec::push`: the item is appended behind those that the vector
/// holds. The call fails where the capacity that it asks for, the next power
/// of two above the length, overflows; with fewer than [`MAX_ARGS`] items
/// held it asks for room for 65536 items at most.
#[verifier::external_body]
fn arg_list_push(list: &mut ArgList, arg: Argument)
    requires
        arg_items(*old(list)).len() < MAX_ARGS,
    ensures
        arg_items(*final(list)) == arg_items(*old(list)).push(arg),
{
    list.items.push(arg)
}

/// `SmallVec::len`: the number of items.
#[verifier::external_body]
fn arg_list_len(list: &ArgList) -> (n: usize)
    ensures
        n == arg_items(*list).len(),
{
    list.items.len()
}

/// `SmallVec::as_slice`: the items in order, from which one is picked.
#[verifier::external_body]
fn arg_list_get(list: &ArgList, i: usize) -> (arg: &Argument)
    requires
        i < arg_items(*list).len(),
    ensures
        *arg == arg_items(*list)[i as int],
{
    &list.items.as_slice()[i]
}

impl View for ArgList {
    type V = Seq<ArgumentView>;

    open spec fn view(&self) -> Seq<ArgumentView> {
        arg_items(*self).map_values(|a: Argument| a@)
    }
}

impl ArgList {
    /// A list without arguments.
    pub fn new() -> (list: ArgList)
        ensures
            arg_items(list) == Seq::<Argument>::empty(),
            list@ == Seq::<ArgumentView>::empty(),
    {
        let list = arg_list_empty();
        assert(list@ =~= Seq::<ArgumentView>::empty());
        list
    }

    /// Appends an argument. A list holds [`MAX_ARGS`] arguments at most.
    pub fn push(&mut self, arg: Argument)
        requires
            old(self)@.len() < MAX_ARGS,
        ensures
            arg_items(*final(self)) == arg_items(*old(self)).push(arg),
            final(self)@ == old(self)@.push(arg@),
    {
        arg_list_push(self, arg);
        assert(self@ =~= old(self)@.push(arg@));
    }

    /// Number of arguments.
    pub fn len(&self) -> (n: usize)
        ensures
            n == arg_items(*self).len(),
            n == self@.len(),
    {
        arg_list_len(self)
    }

    /// The argument at a position, if there is one.
    pub fn get(&self, i: usize) -> (r: Option<&Argument>)
        ensures
            i < self@.len() ==> r == Some(&arg_items(*self)[i as int]) && r->0@ == self@[i as int],
            i >= self@.len() ==> r is None,
    {
        if i < arg_list_len(self) {
            Some(arg_list_get(self, i))
        } else {
            None
        }
    }

    /// The list that holds the arguments of a vector, in its order. A list
    /// holds [`MAX_ARGS`] arguments at most.
    pub fn from_vec(args: Vec<Argument>) -> (list: ArgList)
        requires
            args@.len() <= MAX_ARGS,
        ensures
            arg_items(list) == args@,
            list@ == args@.map_values(|a: Argument| a@),
    {
        let mut args = args;
        let ghost all = args@;
        let mut stack: Vec<Argument> = Vec::new();
        while args.len() > 0
            invariant
                all =~= args@ + stack@.reverse(),
            decreases args.len(),
        {
            let a = args.pop().unwrap();
            stack.push(a);
        }
        let mut list = ArgList::new();
        while stack.len() > 0
            invariant
                all =~= arg_items(list) + stack@.reverse(),
                all.len() <= MAX_ARGS,
                list@.len() == arg_items(list).len(),
            decreases stack.len(),
        {
            let a = stack.pop().unwrap();
            list.push(a);
        }
        assert(arg_items(list) =~= all);
        list
    }
}

/// A message: the object that sends or receives it, the opcode and the
/// arguments.
#[derive(Debug, PartialEq, Eq)]
pub struct Message {
    /// The object that the message is sent on.
    pub sender_id: InnerObjectId,
    /// Position of the message among the requests or events of the interface.
    pub opcode: u16,
    /// The arguments.
    pub args: ArgList,
}

/// What is known of a live object.
#[derive(Clone, Copy, Debug, PartialEq, Eq, Structural)]
pub struct ObjectInfo {
    /// The number that names the object on the wire.
    pub id: u32,
    /// The interface of the object.
    pub interface: InterfaceId,
    /// The version of the interface that the object speaks.
    pub version: u32,
}

fn has_type(arg: &Argument, ty: ArgumentType) -> (r: bool)
    ensures
        r == arg_has_type(arg@, ty),
{
    match (ty, arg) {
        (ArgumentType::Int, Argument::Int(_)) => true,
        (ArgumentType::Uint, Argument::Uint(_)) => true,
        (ArgumentType::Fixed, Argument::Fixed(_)) => true,
        (ArgumentType::Str(_), Argument::Str(_)) => true,
        (ArgumentType::Object(_), Argument::Object(_)) => true,
        (ArgumentType::NewId(_), Argument::NewId(_)) => true,
        (ArgumentType::Array(_), Argument::Array(_)) => true,
        (ArgumentType::Fd, Argument::Fd(_)) => true,
        _ => false,
    }
}

/// Checks that a list of arguments has the arity and the kinds that a
/// signature asks for.
pub fn check_for_signature(signature: &Vec<ArgumentType>, args: &ArgList) -> (r: bool)
    ensures
        r == signature_matches(signature@, args@),
{
    if signature.len() != args.len() {
        return false;
    }
    let mut i: usize = 0;
    while i < signature.len()
        invariant
            i <= signature.len(),
            signature.len() == args@.len(),
            args@.len() == arg_items(*args).len(),
            forall|k: int| 0 <= k < i ==> arg_has_type(#[trigger] args@[k], signature@[k]),
        decreases signature.len() - i,
    {
        let a = arg_list_get(args, i);
        assert(a@ == args@[i as int]);
        if !has_type(a, signature[i]) {
            return false;
        }
        i = i + 1;
    }
    true
}

} // verus!
