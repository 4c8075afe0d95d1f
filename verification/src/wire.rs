//! The wire format.
//!
//! A message is a header of two 32-bit words, the number of the object and
//! then the opcode and the size of the whole message as 16-bit halves,
//! followed by the arguments. All words are little-endian. Integers and
//! object numbers take one word. A string or an array takes a word with its
//! length, its bytes (a string's length counts the NUL that ends it), and
//! zero bytes up to the next word boundary; a null string or array is the
//! length `0xFFFF_FFFF` alone. A new object whose interface the sender
//! chooses is preceded by the name of the interface and its version. File
//! descriptors travel beside the bytes.

use crate::bytes::copy_range;
use crate::protocol::{AllowNull, ArgumentType};
use vstd::prelude::*;

verus! {

/// An argument as it stands on the wire, with objects as numbers.
#[derive(Clone, Debug, PartialEq, Eq)]
pub enum WireArg {
    Int(i32),
    Uint(u32),
    Fixed(i32),
    Str(Option<Vec<u8>>),
    Object(u32),
    /// A new object of the interface that the message's description fixes.
    NewId(u32),
    /// A new object of an interface that the sender chooses.
    NewIdGeneric { name: Vec<u8>, version: u32, id: u32 },
    Array(Option<Vec<u8>>),
    Fd(i32),
}

/// A wire argument as a mathematical value.
pub enum WireArgView {
    Int(i32),
    Uint(u32),
    Fixed(i32),
    Str(Option<Seq<u8>>),
    Object(u32),
    NewId(u32),
    NewIdGeneric { name: Seq<u8>, version: u32, id: u32 },
    Array(Option<Seq<u8>>),
    Fd(i32),
}

impl View for WireArg {
    type V = WireArgView;

    open spec fn view(&self) -> WireArgView {
        match *self {
            WireArg::Int(i) => WireArgView::Int(i),
            WireArg::Uint(u) => WireArgView::Uint(u),
            WireArg::Fixed(f) => WireArgView::Fixed(f),
            WireArg::Str(s) => WireArgView::Str(
                match s {
                    Some(v) => Some(v@),
                    None => None,
                },
            ),
            WireArg::Object(o) => WireArgView::Object(o),
            WireArg::NewId(n) => WireArgView::NewId(n),
            WireArg::NewIdGeneric { name, version, id } => WireArgView::NewIdGeneric {
                name: name@,
                version,
                id,
            },
            WireArg::Array(a) => WireArgView::Array(
                match a {
                    Some(v) => Some(v@),
                    None => None,
                },
            ),
            WireArg::Fd(h) => WireArgView::Fd(h),
        }
    }
}

/// The views of a vector of wire arguments.
pub open spec fn wire_views(args: Seq<WireArg>) -> Seq<WireArgView> {
    args.map_values(|a: WireArg| a@)
}

/// The length that stands for a null string or array.
pub const NULL_LENGTH: u32 = 0xFFFF_FFFF;

/// Size of the header of a message.
pub const HEADER_SIZE: usize = 8;

/// Largest size of a message, header included: the largest multiple of the
/// word size that the 16 bits of the header's size field hold.
pub const MAX_MESSAGE_SIZE: usize = 0xFFFC;

/// The four bytes of a word, lowest first.
#[verifier::opaque]
pub open spec fn u32_le(x: u32) -> Seq<u8> {
    seq![
        (x % 256) as u8,
        ((x / 256) % 256) as u8,
        ((x / 65536) % 256) as u8,
        (x / 16777216) as u8,
    ]
}

/// The word that four bytes spell, lowest first.
#[verifier::opaque]
pub open spec fn le_u32(b: Seq<u8>) -> u32 {
    (b[0] as int + 256 * (b[1] as int) + 65536 * (b[2] as int) + 16777216 * (b[3] as int)) as u32
}

/// The two bytes of a half word, lowest first.
#[verifier::opaque]
pub open spec fn u16_le(x: u16) -> Seq<u8> {
    seq![(x % 256) as u8, (x / 256) as u8]
}

/// The half word that two bytes spell, lowest first.
#[verifier::opaque]
pub open spec fn le_u16(b: Seq<u8>) -> u16 {
    (b[0] as int + 256 * (b[1] as int)) as u16
}

/// The word that holds a signed integer in two's complement.
pub open spec fn i32_bits(x: i32) -> u32 {
    if x >= 0 {
        x as u32
    } else {
        (x + 0x1_0000_0000) as u32
    }
}

/// The signed integer that a word holds in two's complement.
pub open spec fn bits_i32(w: u32) -> i32 {
    if w < 0x8000_0000 {
        w as i32
    } else {
        (w - 0x1_0000_0000) as i32
    }
}

/// Number of zero bytes that bring `n` bytes to a word boundary.
pub open spec fn padding(n: nat) -> nat {
    ((4 - n % 4) % 4) as nat
}

pub open spec fn zeros(n: nat) -> Seq<u8> {
    Seq::new(n, |i: int| 0u8)
}

/// A length, the payload of that length, and the padding.
pub open spec fn blob_bytes(payload: Seq<u8>) -> Seq<u8> {
    u32_le(payload.len() as u32) + payload + zeros(padding(payload.len()))
}

/// The bytes of a string: its contents and the NUL that ends them.
pub open spec fn str_bytes(s: Seq<u8>) -> Seq<u8> {
    blob_bytes(s.push(0u8))
}

/// The bytes that one argument takes on the wire.
pub open spec fn arg_bytes(a: WireArgView) -> Seq<u8> {
    match a {
        WireArgView::Int(i) => u32_le(i32_bits(i)),
        WireArgView::Uint(u) => u32_le(u),
        WireArgView::Fixed(f) => u32_le(i32_bits(f)),
        WireArgView::Str(None) => u32_le(NULL_LENGTH),
        WireArgView::Str(Some(s)) => str_bytes(s),
        WireArgView::Object(o) => u32_le(o),
        WireArgView::NewId(n) => u32_le(n),
        WireArgView::NewIdGeneric { name, version, id } => str_bytes(name) + u32_le(version)
            + u32_le(id),
        WireArgView::Array(None) => u32_le(NULL_LENGTH),
        WireArgView::Array(Some(a)) => blob_bytes(a),
        WireArgView::Fd(_) => Seq::<u8>::empty(),
    }
}

/// The bytes of the arguments of a message, in order.
pub open spec fn args_bytes(args: Seq<WireArgView>) -> Seq<u8>
    decreases args.len(),
{
    if args.len() == 0 {
        Seq::<u8>::empty()
    } else {
        args_bytes(args.drop_last()) + arg_bytes(args.last())
    }
}

/// The file descriptors among the arguments of a message, in order.
pub open spec fn args_fds(args: Seq<WireArgView>) -> Seq<i32>
    decreases args.len(),
{
    if args.len() == 0 {
        Seq::<i32>::empty()
    } else {
        match args.last() {
            WireArgView::Fd(h) => args_fds(args.drop_last()).push(h),
            _ => args_fds(args.drop_last()),
        }
    }
}

/// The header of a message.
pub open spec fn header_bytes(sender: u32, opcode: u16, size: u16) -> Seq<u8> {
    u32_le(sender) + u16_le(opcode) + u16_le(size)
}

/// A whole message: the header, with the size of the whole, and the
/// arguments.
pub open spec fn message_bytes(sender: u32, opcode: u16, args: Seq<WireArgView>) -> Seq<u8> {
    header_bytes(sender, opcode, (HEADER_SIZE + args_bytes(args).len()) as u16) + args_bytes(args)
}

/// A word and its bytes determine each other.
pub proof fn lemma_u32_le(x: u32)
    ensures
        u32_le(x).len() == 4,
        le_u32(u32_le(x)) == x,
{
    reveal(u32_le);
    reveal(le_u32);
    let b0 = x % 256;
    let b1 = (x / 256) % 256;
    let b2 = (x / 65536) % 256;
    let b3 = x / 16777216;
    assert(x == b0 + 256 * b1 + 65536 * b2 + 16777216 * b3);
    assert(b3 < 256);
}

/// So do a half word and its bytes.
pub proof fn lemma_u16_le(x: u16)
    ensures
        u16_le(x).len() == 2,
        le_u16(u16_le(x)) == x,
{
    reveal(u16_le);
    reveal(le_u16);
}

/// A signed integer and the word that holds it determine each other.
pub proof fn lemma_i32_bits(x: i32)
    ensures
        bits_i32(i32_bits(x)) == x,
{
}

fn put_u32(out: &mut Vec<u8>, x: u32)
    ensures
        final(out)@ == old(out)@ + u32_le(x),
{
    proof {
        reveal(u32_le);
    }
    out.push((x % 256) as u8);
    out.push(((x / 256) % 256) as u8);
    out.push(((x / 65536) % 256) as u8);
    out.push((x / 16777216) as u8);
    assert(out@ =~= old(out)@ + u32_le(x));
}

fn put_u16(out: &mut Vec<u8>, x: u16)
    ensures
        final(out)@ == old(out)@ + u16_le(x),
{
    proof {
        reveal(u16_le);
    }
    out.push((x % 256) as u8);
    out.push((x / 256) as u8);
    assert(out@ =~= old(out)@ + u16_le(x));
}

fn bits_of(x: i32) -> (w: u32)
    ensures
        w == i32_bits(x),
{
    if x >= 0 {
        x as u32
    } else {
        ((x as i64) + 0x1_0000_0000) as u32
    }
}

fn put_blob(out: &mut Vec<u8>, payload: &Vec<u8>, nul: bool)
    requires
        payload@.len() + (if nul {
            1int
        } else {
            0int
        }) < NULL_LENGTH,
    ensures
        final(out)@ == old(out)@ + blob_bytes(
            if nul {
                payload@.push(0u8)
            } else {
                payload@
            },
        ),
{
    let ghost whole = if nul {
        payload@.push(0u8)
    } else {
        payload@
    };
    let n: usize = if nul {
        payload.len() + 1
    } else {
        payload.len()
    };
    put_u32(out, n as u32);
    let mut i: usize = 0;
    while i < payload.len()
        invariant
            i <= payload.len(),
            out@ == old(out)@ + u32_le(n as u32) + payload@.take(i as int),
        decreases payload.len() - i,
    {
        out.push(payload[i]);
        assert(payload@.take(i + 1) =~= payload@.take(i as int).push(payload@[i as int]));
        assert(out@ =~= old(out)@ + u32_le(n as u32) + payload@.take(i + 1));
        i = i + 1;
    }
    assert(payload@.take(i as int) =~= payload@);
    if nul {
        out.push(0u8);
    }
    assert(out@ =~= old(out)@ + u32_le(n as u32) + whole);
    let pad: usize = (4 - n % 4) % 4;
    let mut k: usize = 0;
    while k < pad
        invariant
            k <= pad,
            out@ == old(out)@ + u32_le(n as u32) + whole + zeros(k as nat),
        decreases pad - k,
    {
        out.push(0u8);
        assert(zeros((k + 1) as nat) =~= zeros(k as nat).push(0u8));
        assert(out@ =~= old(out)@ + u32_le(n as u32) + whole + zeros((k + 1) as nat));
        k = k + 1;
    }
    assert(out@ =~= old(out)@ + blob_bytes(whole));
}

/// Whether a wire argument can be written: the lengths of its strings and
/// arrays fit a word and differ from the null length.
pub open spec fn arg_encodable(a: WireArgView) -> bool {
    match a {
        WireArgView::Str(Some(s)) => s.len() + 1 < NULL_LENGTH,
        WireArgView::Array(Some(a)) => a.len() < NULL_LENGTH,
        WireArgView::NewIdGeneric { name, .. } => name.len() + 1 < NULL_LENGTH,
        _ => true,
    }
}

fn put_arg(out: &mut Vec<u8>, fds: &mut Vec<i32>, arg: &WireArg)
    requires
        arg_encodable(arg@),
    ensures
        final(out)@ == old(out)@ + arg_bytes(arg@),
        final(fds)@ == match arg@ {
            WireArgView::Fd(h) => old(fds)@.push(h),
            _ => old(fds)@,
        },
{
    match arg {
        WireArg::Int(i) => put_u32(out, bits_of(*i)),
        WireArg::Uint(u) => put_u32(out, *u),
        WireArg::Fixed(f) => put_u32(out, bits_of(*f)),
        WireArg::Str(None) => put_u32(out, NULL_LENGTH),
        WireArg::Str(Some(s)) => put_blob(out, s, true),
        WireArg::Object(o) => put_u32(out, *o),
        WireArg::NewId(n) => put_u32(out, *n),
        WireArg::NewIdGeneric { name, version, id } => {
            put_blob(out, name, true);
            put_u32(out, *version);
            put_u32(out, *id);
            assert(out@ =~= old(out)@ + arg_bytes(arg@));
        },
        WireArg::Array(None) => put_u32(out, NULL_LENGTH),
        WireArg::Array(Some(a)) => put_blob(out, a, false),
        WireArg::Fd(h) => {
            fds.push(*h);
            assert(out@ =~= old(out)@ + arg_bytes(arg@));
        },
    }
}

/// A message as it is handed to the transport.
#[derive(Clone, Debug, PartialEq, Eq)]
pub struct WireMessage {
    /// The bytes of the message.
    pub bytes: Vec<u8>,
    /// The file descriptors that travel with it.
    pub fds: Vec<i32>,
}

/// Whether every argument can be written and the whole message fits the
/// size field of the header.
pub open spec fn message_encodable(args: Seq<WireArgView>) -> bool {
    &&& forall|i: int| 0 <= i < args.len() ==> arg_encodable(#[trigger] args[i])
    &&& HEADER_SIZE + args_bytes(args).len() <= MAX_MESSAGE_SIZE
}

/// Writes a message. Returns `None` exactly when an argument cannot be
/// written or the message is larger than [`MAX_MESSAGE_SIZE`].
pub fn encode_message(sender: u32, opcode: u16, args: &Vec<WireArg>) -> (r: Option<WireMessage>)
    ensures
        r is Some <==> message_encodable(wire_views(args@)),
        r matches Some(m) ==> m.bytes@ == message_bytes(sender, opcode, wire_views(args@))
            && m.fds@ == args_fds(wire_views(args@)),
{
    let ghost views = wire_views(args@);
    let mut body: Vec<u8> = Vec::new();
    let mut fds: Vec<i32> = Vec::new();
    let mut i: usize = 0;
    while i < args.len()
        invariant
            i <= args.len(),
            views == wire_views(args@),
            body@ == args_bytes(views.take(i as int)),
            fds@ == args_fds(views.take(i as int)),
            body@.len() <= MAX_MESSAGE_SIZE - HEADER_SIZE,
            forall|k: int| 0 <= k < i ==> arg_encodable(#[trigger] views[k]),
        decreases args.len() - i,
    {
        let arg = &args[i];
        assert(arg@ == views[i as int]);
        if !can_encode(arg) {
            return None;
        }
        let ghost before = body@;
        put_arg(&mut body, &mut fds, arg);
        proof {
            assert(views.take(i + 1).drop_last() =~= views.take(i as int));
            assert(views.take(i + 1).last() == views[i as int]);
            lemma_args_bytes_prefix(views, i + 1);
        }
        if body.len() > MAX_MESSAGE_SIZE - HEADER_SIZE {
            return None;
        }
        i = i + 1;
    }
    assert(views.take(i as int) =~= views);
    let mut bytes: Vec<u8> = Vec::new();
    put_u32(&mut bytes, sender);
    put_u16(&mut bytes, opcode);
    put_u16(&mut bytes, (HEADER_SIZE + body.len()) as u16);
    bytes.append(&mut body);
    assert(bytes@ =~= message_bytes(sender, opcode, views));
    Some(WireMessage { bytes, fds })
}

fn can_encode(arg: &WireArg) -> (r: bool)
    ensures
        r == arg_encodable(arg@),
{
    match arg {
        WireArg::Str(Some(s)) => s.len() < (NULL_LENGTH - 1) as usize,
        WireArg::Array(Some(a)) => a.len() < NULL_LENGTH as usize,
        WireArg::NewIdGeneric { name, .. } => name.len() < (NULL_LENGTH - 1) as usize,
        _ => true,
    }
}

/// The bytes of a prefix of the arguments are a prefix of the bytes of all
/// of them, so a message that is too large stays so as arguments are added.
pub proof fn lemma_args_bytes_prefix(args: Seq<WireArgView>, n: int)
    requires
        0 <= n <= args.len(),
    ensures
        args_bytes(args.take(n)).len() <= args_bytes(args).len(),
    decreases args.len() - n,
{
    if n < args.len() {
        lemma_args_bytes_prefix(args, n + 1);
        assert(args.take(n + 1).drop_last() =~= args.take(n));
    } else {
        assert(args.take(n) =~= args);
    }
}

/// The word at the start of some bytes.
pub open spec fn decode_word(bytes: Seq<u8>) -> Option<u32> {
    if bytes.len() < 4 {
        None
    } else {
        Some(le_u32(bytes.take(4)))
    }
}

/// The length, payload and padding at the start of some bytes: the payload,
/// or `None` for the null length, and the number of bytes taken.
pub open spec fn decode_blob(bytes: Seq<u8>) -> Option<(Option<Seq<u8>>, nat)> {
    match decode_word(bytes) {
        None => None,
        Some(n) => if n == NULL_LENGTH {
            Some((None, 4nat))
        } else {
            let total = (4 + n + padding(n as nat)) as nat;
            if bytes.len() < total {
                None
            } else {
                Some((Some(bytes.subrange(4, 4 + n)), total))
            }
        },
    }
}

/// The string at the start of some bytes. Its payload must end in a NUL and
/// hold no other.
pub open spec fn decode_str(bytes: Seq<u8>) -> Option<(Option<Seq<u8>>, nat)> {
    match decode_blob(bytes) {
        None => None,
        Some((None, used)) => Some((None, used)),
        Some((Some(p), used)) => if p.len() >= 1 && p.last() == 0u8 && !p.drop_last().contains(
            0u8,
        ) {
            Some((Some(p.drop_last()), used))
        } else {
            None
        },
    }
}

/// One argument read from bytes and descriptors.
pub struct DecodedArg {
    /// The argument.
    pub arg: WireArgView,
    /// Number of bytes that it took.
    pub bytes_used: nat,
    /// Number of file descriptors that it took.
    pub fds_used: nat,
}

pub open spec fn null_allowed(allow: AllowNull, is_null: bool) -> bool {
    is_null ==> allow == AllowNull::Yes
}

/// The argument of a given type at the start of some bytes and descriptors,
/// or `None` where the bytes are too short or malformed, where a null stands
/// in a place that does not allow it, or where a descriptor is missing.
/// `generic` says whether the message's new object is of an interface that
/// the sender chooses.
#[verifier::opaque]
pub open spec fn decode_arg(ty: ArgumentType, generic: bool, bytes: Seq<u8>, fds: Seq<i32>) -> Option<
    DecodedArg,
> {
    match ty {
        ArgumentType::Int => match decode_word(bytes) {
            Some(w) => Some(
                DecodedArg { arg: WireArgView::Int(bits_i32(w)), bytes_used: 4, fds_used: 0 },
            ),
            None => None,
        },
        ArgumentType::Uint => match decode_word(bytes) {
            Some(w) => Some(DecodedArg { arg: WireArgView::Uint(w), bytes_used: 4, fds_used: 0 }),
            None => None,
        },
        ArgumentType::Fixed => match decode_word(bytes) {
            Some(w) => Some(
                DecodedArg { arg: WireArgView::Fixed(bits_i32(w)), bytes_used: 4, fds_used: 0 },
            ),
            None => None,
        },
        ArgumentType::Str(allow) => match decode_str(bytes) {
            Some((s, used)) => if null_allowed(allow, s is None) {
                Some(DecodedArg { arg: WireArgView::Str(s), bytes_used: used, fds_used: 0 })
            } else {
                None
            },
            None => None,
        },
        ArgumentType::Object(allow) => match decode_word(bytes) {
            Some(w) => if null_allowed(allow, w == 0) {
                Some(DecodedArg { arg: WireArgView::Object(w), bytes_used: 4, fds_used: 0 })
            } else {
                None
            },
            None => None,
        },
        ArgumentType::NewId(allow) => if generic {
            match decode_str(bytes) {
                Some((Some(name), used)) => match decode_word(bytes.skip(used as int)) {
                    Some(version) => match decode_word(bytes.skip((used + 4) as int)) {
                        Some(id) => if null_allowed(allow, id == 0) {
                            Some(
                                DecodedArg {
                                    arg: WireArgView::NewIdGeneric { name, version, id },
                                    bytes_used: used + 8,
                                    fds_used: 0,
                                },
                            )
                        } else {
                            None
                        },
                        None => None,
                    },
                    None => None,
                },
                _ => None,
            }
        } else {
            match decode_word(bytes) {
                Some(w) => if null_allowed(allow, w == 0) {
                    Some(DecodedArg { arg: WireArgView::NewId(w), bytes_used: 4, fds_used: 0 })
                } else {
                    None
                },
                None => None,
            }
        },
        ArgumentType::Array(allow) => match decode_blob(bytes) {
            Some((a, used)) => if null_allowed(allow, a is None) {
                Some(DecodedArg { arg: WireArgView::Array(a), bytes_used: used, fds_used: 0 })
            } else {
                None
            },
            None => None,
        },
        ArgumentType::Fd => if fds.len() >= 1 {
            Some(DecodedArg { arg: WireArgView::Fd(fds[0]), bytes_used: 0, fds_used: 1 })
        } else {
            None
        },
    }
}

/// The arguments of a signature read from the bytes of a message's body and
/// the descriptors that wait, or `None` where an argument cannot be read or
/// bytes are left over.
pub open spec fn decode_args(
    sig: Seq<ArgumentType>,
    generic: bool,
    bytes: Seq<u8>,
    fds: Seq<i32>,
) -> Option<Seq<WireArgView>>
    decreases sig.len(),
{
    if sig.len() == 0 {
        if bytes.len() == 0 {
            Some(Seq::<WireArgView>::empty())
        } else {
            None
        }
    } else {
        match decode_arg(sig[0], generic, bytes, fds) {
            None => None,
            Some(d) => match decode_args(
                sig.skip(1),
                generic,
                bytes.skip(d.bytes_used as int),
                fds.skip(d.fds_used as int),
            ) {
                None => None,
                Some(rest) => Some(seq![d.arg] + rest),
            },
        }
    }
}

/// Number of file descriptors that the arguments of a signature take.
pub open spec fn count_fds(sig: Seq<ArgumentType>) -> nat
    decreases sig.len(),
{
    if sig.len() == 0 {
        0
    } else {
        count_fds(sig.skip(1)) + if sig[0] is Fd {
            1nat
        } else {
            0nat
        }
    }
}

fn get_word(bytes: &Vec<u8>, pos: usize) -> (r: Option<u32>)
    requires
        pos <= bytes.len(),
    ensures
        r == decode_word(bytes@.skip(pos as int)),
{
    proof {
        reveal(le_u32);
    }
    if bytes.len() - pos < 4 {
        return None;
    }
    let b0 = bytes[pos] as u32;
    let b1 = bytes[pos + 1] as u32;
    let b2 = bytes[pos + 2] as u32;
    let b3 = bytes[pos + 3] as u32;
    Some(b0 + 256 * b1 + 65536 * b2 + 16777216 * b3)
}

fn get_blob(bytes: &Vec<u8>, pos: usize) -> (r: Option<(Option<Vec<u8>>, usize)>)
    requires
        pos <= bytes.len(),
    ensures
        match r {
            Some((p, used)) => decode_blob(bytes@.skip(pos as int)) == Some(
                (crate::message::bytes_view(p), used as nat),
            ) && pos + used <= bytes.len() && used >= 4,
            None => decode_blob(bytes@.skip(pos as int)) is None,
        },
{
    let n = match get_word(bytes, pos) {
        None => {
            return None;
        },
        Some(n) => n,
    };
    if n == NULL_LENGTH {
        return Some((None, 4));
    }
    let pad: u64 = (4 - (n as u64) % 4) % 4;
    let total: u64 = 4 + n as u64 + pad;
    if ((bytes.len() - pos) as u64) < total {
        return None;
    }
    let payload = copy_range(bytes, pos + 4, pos + 4 + n as usize);
    assert(payload@ =~= bytes@.skip(pos as int).subrange(4, 4 + n));
    Some((Some(payload), total as usize))
}

fn get_str(bytes: &Vec<u8>, pos: usize) -> (r: Option<(Option<Vec<u8>>, usize)>)
    requires
        pos <= bytes.len(),
    ensures
        match r {
            Some((p, used)) => decode_str(bytes@.skip(pos as int)) == Some(
                (crate::message::bytes_view(p), used as nat),
            ) && pos + used <= bytes.len() && used >= 4,
            None => decode_str(bytes@.skip(pos as int)) is None,
        },
{
    match get_blob(bytes, pos) {
        None => None,
        Some((None, used)) => Some((None, used)),
        Some((Some(p), used)) => {
            let mut p = p;
            let ghost whole = p@;
            if p.len() < 1 {
                return None;
            }
            let last = p.pop().unwrap();
            assert(p@ =~= whole.drop_last());
            if last != 0 {
                return None;
            }
            let mut i: usize = 0;
            while i < p.len()
                invariant
                    i <= p.len(),
                    forall|k: int| 0 <= k < i ==> p@[k] != 0u8,
                    decode_blob(bytes@.skip(pos as int)) == Some((Some(whole), used as nat)),
                    whole.len() >= 1,
                    whole.last() == 0u8,
                    p@ == whole.drop_last(),
                    pos + used <= bytes.len(),
                    used >= 4,
                decreases p.len() - i,
            {
                if p[i] == 0 {
                    assert(p@.contains(0u8));
                    return None;
                }
                i = i + 1;
            }
            assert(!p@.contains(0u8));
            Some((Some(p), used))
        },
    }
}

fn may_be_null(allow: AllowNull, is_null: bool) -> (r: bool)
    ensures
        r == null_allowed(allow, is_null),
{
    !is_null || allow == AllowNull::Yes
}

/// One argument read at a position of the bytes and of the descriptors, and
/// the positions behind it.
fn get_arg(
    ty: ArgumentType,
    generic: bool,
    bytes: &Vec<u8>,
    pos: usize,
    fds: &Vec<i32>,
    fd_pos: usize,
) -> (r: Option<(WireArg, usize, usize)>)
    requires
        pos <= bytes.len(),
        fd_pos <= fds.len(),
    ensures
        match r {
            Some((arg, used, fds_used)) => decode_arg(
                ty,
                generic,
                bytes@.skip(pos as int),
                fds@.skip(fd_pos as int),
            ) == Some(
                DecodedArg { arg: arg@, bytes_used: used as nat, fds_used: fds_used as nat },
            ) && pos + used <= bytes.len() && fd_pos + fds_used <= fds.len(),
            None => decode_arg(ty, generic, bytes@.skip(pos as int), fds@.skip(fd_pos as int))
                is None,
        },
{
    proof {
        reveal(decode_arg);
    }
    match ty {
        ArgumentType::Int => match get_word(bytes, pos) {
            Some(w) => Some((WireArg::Int(int_of(w)), 4, 0)),
            None => None,
        },
        ArgumentType::Uint => match get_word(bytes, pos) {
            Some(w) => Some((WireArg::Uint(w), 4, 0)),
            None => None,
        },
        ArgumentType::Fixed => match get_word(bytes, pos) {
            Some(w) => Some((WireArg::Fixed(int_of(w)), 4, 0)),
            None => None,
        },
        ArgumentType::Str(allow) => match get_str(bytes, pos) {
            Some((s, used)) => if may_be_null(allow, s.is_none()) {
                Some((WireArg::Str(s), used, 0))
            } else {
                None
            },
            None => None,
        },
        ArgumentType::Object(allow) => match get_word(bytes, pos) {
            Some(w) => if may_be_null(allow, w == 0) {
                Some((WireArg::Object(w), 4, 0))
            } else {
                None
            },
            None => None,
        },
        ArgumentType::NewId(allow) => if generic {
            match get_str(bytes, pos) {
                Some((Some(name), used)) => {
                    assert(bytes@.skip(pos as int).skip(used as int) =~= bytes@.skip(pos + used));
                    match get_word(bytes, pos + used) {
                        Some(version) => {
                            assert(bytes@.skip(pos + used).len() >= 4);
                            assert(bytes@.skip(pos as int).skip(used + 4) =~= bytes@.skip(
                                pos + used + 4,
                            ));
                            match get_word(bytes, pos + used + 4) {
                                Some(id) => if may_be_null(allow, id == 0) {
                                    Some((WireArg::NewIdGeneric { name, version, id }, used + 8, 0))
                                } else {
                                    None
                                },
                                None => None,
                            }
                        },
                        None => None,
                    }
                },
                _ => None,
            }
        } else {
            match get_word(bytes, pos) {
                Some(w) => if may_be_null(allow, w == 0) {
                    Some((WireArg::NewId(w), 4, 0))
                } else {
                    None
                },
                None => None,
            }
        },
        ArgumentType::Array(allow) => match get_blob(bytes, pos) {
            Some((a, used)) => if may_be_null(allow, a.is_none()) {
                Some((WireArg::Array(a), used, 0))
            } else {
                None
            },
            None => None,
        },
        ArgumentType::Fd => if fd_pos < fds.len() {
            Some((WireArg::Fd(fds[fd_pos]), 0, 1))
        } else {
            None
        },
    }
}

fn int_of(w: u32) -> (x: i32)
    ensures
        x == bits_i32(w),
{
    if w < 0x8000_0000 {
        w as i32
    } else {
        ((w as i64) - 0x1_0000_0000) as i32
    }
}

/// What [`decode_args`] gives when its first `n` arguments are known.
proof fn lemma_decode_args_step(
    sig: Seq<ArgumentType>,
    generic: bool,
    bytes: Seq<u8>,
    fds: Seq<i32>,
)
    requires
        sig.len() > 0,
    ensures
        decode_args(sig, generic, bytes, fds) == match decode_arg(sig[0], generic, bytes, fds) {
            None => None,
            Some(d) => match decode_args(
                sig.skip(1),
                generic,
                bytes.skip(d.bytes_used as int),
                fds.skip(d.fds_used as int),
            ) {
                None => None,
                Some(rest) => Some(seq![d.arg] + rest),
            },
        },
{
}

/// Reads the arguments of a signature from the body of a message. The
/// descriptors are taken from the front of those that wait. Returns the
/// arguments, or `None` where the body does not hold exactly the arguments
/// of the signature.
pub fn decode_body(sig: &Vec<ArgumentType>, generic: bool, bytes: &Vec<u8>, fds: &Vec<i32>) -> (r:
    Option<Vec<WireArg>>)
    ensures
        match r {
            Some(args) => decode_args(sig@, generic, bytes@, fds@) == Some(wire_views(args@)),
            None => decode_args(sig@, generic, bytes@, fds@) is None,
        },
{
    let mut out: Vec<WireArg> = Vec::new();
    let mut pos: usize = 0;
    let mut fd_pos: usize = 0;
    let mut i: usize = 0;
    assert(sig@.skip(0) =~= sig@ && bytes@.skip(0) =~= bytes@ && fds@.skip(0) =~= fds@);
    assert(wire_views(out@) =~= Seq::<WireArgView>::empty());
    while i < sig.len()
        invariant
            i <= sig.len(),
            pos <= bytes.len(),
            fd_pos <= fds.len(),
            out.len() == i,
            decode_args(sig@, generic, bytes@, fds@) == match decode_args(
                sig@.skip(i as int),
                generic,
                bytes@.skip(pos as int),
                fds@.skip(fd_pos as int),
            ) {
                None => None,
                Some(rest) => Some(wire_views(out@) + rest),
            },
        decreases sig.len() - i,
    {
        proof {
            lemma_decode_args_step(
                sig@.skip(i as int),
                generic,
                bytes@.skip(pos as int),
                fds@.skip(fd_pos as int),
            );
            assert(sig@.skip(i as int)[0] == sig@[i as int]);
            assert(sig@.skip(i as int).skip(1) =~= sig@.skip(i + 1));
        }
        match get_arg(sig[i], generic, bytes, pos, fds, fd_pos) {
            None => {
                return None;
            },
            Some((arg, used, fds_used)) => {
                proof {
                    assert(bytes@.skip(pos as int).skip(used as int) =~= bytes@.skip(pos + used));
                    assert(fds@.skip(fd_pos as int).skip(fds_used as int) =~= fds@.skip(
                        fd_pos + fds_used,
                    ));
                    let ghost rest = decode_args(
                        sig@.skip(i + 1),
                        generic,
                        bytes@.skip(pos + used),
                        fds@.skip(fd_pos + fds_used),
                    );
                    if rest is Some {
                        assert(wire_views(out@.push(arg)) + rest->0 =~= wire_views(out@) + (
                        seq![arg@] + rest->0));
                    }
                }
                out.push(arg);
                pos = pos + used;
                fd_pos = fd_pos + fds_used;
                i = i + 1;
            },
        }
    }
    assert(sig@.skip(i as int).len() == 0);
    if pos != bytes.len() {
        return None;
    }
    assert(wire_views(out@) + Seq::<WireArgView>::empty() =~= wire_views(out@));
    Some(out)
}

/// The header of a message as read.
#[derive(Clone, Copy, Debug, PartialEq, Eq, Structural)]
pub struct Header {
    /// The number of the object that the message is sent on.
    pub sender: u32,
    /// The opcode of the message.
    pub opcode: u16,
    /// The size of the message, header included.
    pub size: u16,
}

/// The header at the start of some bytes.
pub open spec fn decode_header(bytes: Seq<u8>) -> Option<Header> {
    if bytes.len() < HEADER_SIZE {
        None
    } else {
        Some(
            Header {
                sender: le_u32(bytes.take(4)),
                opcode: le_u16(bytes.subrange(4, 6)),
                size: le_u16(bytes.subrange(6, 8)),
            },
        )
    }
}

/// Reads the header at a position of some bytes; `None` where fewer than
/// eight bytes stand there.
pub fn read_header(bytes: &Vec<u8>, pos: usize) -> (r: Option<Header>)
    requires
        pos <= bytes.len(),
    ensures
        r == decode_header(bytes@.skip(pos as int)),
{
    proof {
        reveal(le_u16);
    }
    if bytes.len() - pos < HEADER_SIZE {
        return None;
    }
    let sender = match get_word(bytes, pos) {
        Some(w) => w,
        None => {
            return None;
        },
    };
    let opcode = bytes[pos + 4] as u16 + 256 * (bytes[pos + 5] as u16);
    let size = bytes[pos + 6] as u16 + 256 * (bytes[pos + 7] as u16);
    Some(Header { sender, opcode, size })
}

/// Whether a wire argument is what a place of a signature asks for: of its
/// kind, null only where that is allowed, with strings free of NUL, and
/// with lengths that can be written.
pub open spec fn wire_arg_fits(a: WireArgView, ty: ArgumentType, generic: bool) -> bool {
    match (ty, a) {
        (ArgumentType::Int, WireArgView::Int(_)) => true,
        (ArgumentType::Uint, WireArgView::Uint(_)) => true,
        (ArgumentType::Fixed, WireArgView::Fixed(_)) => true,
        (ArgumentType::Fd, WireArgView::Fd(_)) => true,
        (ArgumentType::Str(allow), WireArgView::Str(s)) => null_allowed(allow, s is None) && (s
            matches Some(v) ==> !v.contains(0u8) && v.len() + 1 < NULL_LENGTH),
        (ArgumentType::Array(allow), WireArgView::Array(a)) => null_allowed(allow, a is None) && (a
            matches Some(v) ==> v.len() < NULL_LENGTH),
        (ArgumentType::Object(allow), WireArgView::Object(o)) => null_allowed(allow, o == 0),
        (ArgumentType::NewId(allow), WireArgView::NewId(n)) => !generic && null_allowed(
            allow,
            n == 0,
        ),
        (ArgumentType::NewId(allow), WireArgView::NewIdGeneric { name, version, id }) => generic
            && !name.contains(0u8) && name.len() + 1 < NULL_LENGTH && null_allowed(allow, id == 0),
        _ => false,
    }
}

/// Whether a list of wire arguments is what a signature asks for.
pub open spec fn wire_args_fit(args: Seq<WireArgView>, sig: Seq<ArgumentType>, generic: bool) -> bool {
    &&& args.len() == sig.len()
    &&& forall|i: int| 0 <= i < args.len() ==> wire_arg_fits(#[trigger] args[i], sig[i], generic)
}

/// The descriptor that an argument takes, if it is one.
pub open spec fn arg_fds(a: WireArgView) -> Seq<i32> {
    match a {
        WireArgView::Fd(h) => seq![h],
        _ => Seq::<i32>::empty(),
    }
}

proof fn lemma_word_round_trip(x: u32, rest: Seq<u8>)
    ensures
        decode_word(u32_le(x) + rest) == Some(x),
        (u32_le(x) + rest).skip(4) == rest,
{
    lemma_u32_le(x);
    assert((u32_le(x) + rest).take(4) =~= u32_le(x));
    assert((u32_le(x) + rest).skip(4) =~= rest);
}

proof fn lemma_blob_round_trip(payload: Seq<u8>, rest: Seq<u8>)
    requires
        payload.len() < NULL_LENGTH,
    ensures
        decode_blob(blob_bytes(payload) + rest) == Some(
            (Some(payload), blob_bytes(payload).len()),
        ),
        (blob_bytes(payload) + rest).skip(blob_bytes(payload).len() as int) == rest,
{
    let n = payload.len() as u32;
    lemma_u32_le(n);
    let tail = payload + zeros(padding(payload.len())) + rest;
    assert(blob_bytes(payload) + rest =~= u32_le(n) + tail);
    lemma_word_round_trip(n, tail);
    assert((blob_bytes(payload) + rest).subrange(4, 4 + n) =~= payload);
    assert((blob_bytes(payload) + rest).skip(blob_bytes(payload).len() as int) =~= rest);
}

proof fn lemma_str_round_trip(s: Seq<u8>, rest: Seq<u8>)
    requires
        s.len() + 1 < NULL_LENGTH,
        !s.contains(0u8),
    ensures
        decode_str(str_bytes(s) + rest) == Some((Some(s), str_bytes(s).len())),
        (str_bytes(s) + rest).skip(str_bytes(s).len() as int) == rest,
{
    lemma_blob_round_trip(s.push(0u8), rest);
    assert(s.push(0u8).drop_last() =~= s);
}

proof fn lemma_generic_round_trip(
    name: Seq<u8>,
    version: u32,
    id: u32,
    allow: AllowNull,
    rest: Seq<u8>,
    fds: Seq<i32>,
)
    requires
        !name.contains(0u8),
        name.len() + 1 < NULL_LENGTH,
        null_allowed(allow, id == 0),
    ensures
        decode_arg(
            ArgumentType::NewId(allow),
            true,
            str_bytes(name) + u32_le(version) + u32_le(id) + rest,
            fds,
        ) == Some(
            DecodedArg {
                arg: WireArgView::NewIdGeneric { name, version, id },
                bytes_used: (str_bytes(name).len() + 8) as nat,
                fds_used: 0,
            },
        ),
        (str_bytes(name) + u32_le(version) + u32_le(id) + rest).skip(
            (str_bytes(name).len() + 8) as int,
        ) == rest,
{
    reveal(decode_arg);
    let all = str_bytes(name) + u32_le(version) + u32_le(id) + rest;
    let used = str_bytes(name).len();
    let tail = u32_le(version) + (u32_le(id) + rest);
    assert(all =~= str_bytes(name) + tail);
    lemma_str_round_trip(name, tail);
    lemma_word_round_trip(version, u32_le(id) + rest);
    lemma_word_round_trip(id, rest);
    assert(all.skip(used as int) == tail);
    assert(all.skip((used + 4) as int) =~= u32_le(id) + rest);
    assert(all.skip((used + 8) as int) =~= rest);
}

/// Reading what was written gives back one argument: the bytes and the
/// descriptor of an argument that fits its place, followed by anything, are
/// read as that argument, and what followed is left.
pub proof fn lemma_arg_round_trip(
    a: WireArgView,
    ty: ArgumentType,
    generic: bool,
    rest: Seq<u8>,
    rest_fds: Seq<i32>,
)
    requires
        wire_arg_fits(a, ty, generic),
    ensures
        decode_arg(ty, generic, arg_bytes(a) + rest, arg_fds(a) + rest_fds) == Some(
            DecodedArg {
                arg: a,
                bytes_used: arg_bytes(a).len(),
                fds_used: arg_fds(a).len(),
            },
        ),
        (arg_bytes(a) + rest).skip(arg_bytes(a).len() as int) == rest,
        (arg_fds(a) + rest_fds).skip(arg_fds(a).len() as int) == rest_fds,
{
    reveal(decode_arg);
    assert((arg_fds(a) + rest_fds).skip(arg_fds(a).len() as int) =~= rest_fds);
    match a {
        WireArgView::Int(i) => {
            lemma_word_round_trip(i32_bits(i), rest);
        },
        WireArgView::Uint(u) => {
            lemma_word_round_trip(u, rest);
        },
        WireArgView::Fixed(f) => {
            lemma_word_round_trip(i32_bits(f), rest);
        },
        WireArgView::Str(None) => {
            lemma_word_round_trip(NULL_LENGTH, rest);
        },
        WireArgView::Str(Some(s)) => {
            lemma_str_round_trip(s, rest);
        },
        WireArgView::Object(o) => {
            lemma_word_round_trip(o, rest);
        },
        WireArgView::NewId(n) => {
            lemma_word_round_trip(n, rest);
        },
        WireArgView::NewIdGeneric { name, version, id } => {
            lemma_generic_round_trip(name, version, id, ty->NewId_0, rest, arg_fds(a) + rest_fds);
        },
        WireArgView::Array(None) => {
            lemma_word_round_trip(NULL_LENGTH, rest);
        },
        WireArgView::Array(Some(v)) => {
            lemma_blob_round_trip(v, rest);
        },
        WireArgView::Fd(h) => {
            assert(arg_bytes(a) + rest =~= rest);
            assert((arg_bytes(a) + rest).skip(0) =~= rest);
        },
    }
}

/// The bytes and descriptors of a list are those of its first argument
/// followed by those of the others.
pub proof fn lemma_args_bytes_front(args: Seq<WireArgView>)
    requires
        args.len() > 0,
    ensures
        args_bytes(args) == arg_bytes(args[0]) + args_bytes(args.skip(1)),
        args_fds(args) == arg_fds(args[0]) + args_fds(args.skip(1)),
    decreases args.len(),
{
    if args.len() == 1 {
        assert(args.drop_last() =~= Seq::<WireArgView>::empty());
        assert(args.skip(1) =~= Seq::<WireArgView>::empty());
        assert(args_bytes(args) =~= arg_bytes(args[0]) + args_bytes(args.skip(1)));
        assert(args_fds(args) =~= arg_fds(args[0]) + args_fds(args.skip(1)));
    } else {
        lemma_args_bytes_front(args.drop_last());
        assert(args.drop_last().skip(1) =~= args.skip(1).drop_last());
        assert(args.drop_last()[0] == args[0]);
        assert(args.skip(1).last() == args.last());
        assert(args_bytes(args) =~= arg_bytes(args[0]) + args_bytes(args.skip(1)));
        assert(args_fds(args) =~= arg_fds(args[0]) + args_fds(args.skip(1)));
    }
}

/// Reading what was written gives back the arguments: for every list of
/// arguments that fits a signature, the bytes and descriptors that encoding
/// produces are decoded, with the same signature, to that list, argument
/// for argument. Descriptors that wait behind those of the message are left
/// alone.
pub proof fn lemma_args_round_trip(
    args: Seq<WireArgView>,
    sig: Seq<ArgumentType>,
    generic: bool,
    more_fds: Seq<i32>,
)
    requires
        wire_args_fit(args, sig, generic),
    ensures
        decode_args(sig, generic, args_bytes(args), args_fds(args) + more_fds) == Some(args),
    decreases args.len(),
{
    if args.len() == 0 {
        assert(args =~= Seq::<WireArgView>::empty());
    } else {
        let a = args[0];
        let rest = args.skip(1);
        lemma_args_bytes_front(args);
        assert(wire_arg_fits(a, sig[0], generic));
        assert(wire_args_fit(rest, sig.skip(1), generic)) by {
            assert forall|i: int| 0 <= i < rest.len() implies wire_arg_fits(
                #[trigger] rest[i],
                sig.skip(1)[i],
                generic,
            ) by {
                assert(rest[i] == args[i + 1]);
            }
        }
        let tail_fds = args_fds(rest) + more_fds;
        assert(args_fds(args) + more_fds =~= arg_fds(a) + tail_fds);
        lemma_arg_round_trip(a, sig[0], generic, args_bytes(rest), tail_fds);
        lemma_args_round_trip(rest, sig.skip(1), generic, more_fds);
        assert(seq![a] + rest =~= args);
    }
}

/// A written message starts with its header, which tells its number, its
/// opcode and its size, and the rest is its arguments.
pub proof fn lemma_message_round_trip(sender: u32, opcode: u16, args: Seq<WireArgView>)
    requires
        HEADER_SIZE + args_bytes(args).len() <= MAX_MESSAGE_SIZE,
    ensures
        decode_header(message_bytes(sender, opcode, args)) == Some(
            Header { sender, opcode, size: message_bytes(sender, opcode, args).len() as u16 },
        ),
        message_bytes(sender, opcode, args).len() == HEADER_SIZE + args_bytes(args).len(),
        message_bytes(sender, opcode, args).skip(HEADER_SIZE as int) == args_bytes(args),
{
    let m = message_bytes(sender, opcode, args);
    let body = args_bytes(args);
    let size = (HEADER_SIZE + body.len()) as u16;
    let a = u32_le(sender);
    let b = u16_le(opcode);
    let c = u16_le(size);
    lemma_u32_le(sender);
    lemma_u16_le(opcode);
    lemma_u16_le(size);
    assert(a.len() == 4 && b.len() == 2 && c.len() == 2);
    assert(m == a + b + c + body);
    assert(m.len() == 8 + body.len());
    assert(m.take(4) =~= a);
    assert(m.subrange(4, 6) =~= b);
    assert(m.subrange(6, 8) =~= c);
    assert(m.skip(8) =~= body);
}

/// An argument that was read fits the place that it was read for.
pub proof fn lemma_decoded_arg_fits(ty: ArgumentType, generic: bool, bytes: Seq<u8>, fds: Seq<i32>)
    requires
        decode_arg(ty, generic, bytes, fds) is Some,
    ensures
        wire_arg_fits(decode_arg(ty, generic, bytes, fds)->0.arg, ty, generic),
        decode_arg(ty, generic, bytes, fds)->0.fds_used == arg_fds(
            decode_arg(ty, generic, bytes, fds)->0.arg,
        ).len(),
        decode_arg(ty, generic, bytes, fds)->0.fds_used <= fds.len(),
        arg_fds(decode_arg(ty, generic, bytes, fds)->0.arg) == fds.take(
            decode_arg(ty, generic, bytes, fds)->0.fds_used as int,
        ),
{
    reveal(decode_arg);
    let d = decode_arg(ty, generic, bytes, fds)->0;
    assert(arg_fds(d.arg) =~= fds.take(d.fds_used as int));
    match ty {
        ArgumentType::Str(_) => {
            let p = (decode_blob(bytes)->0).0;
            if p is Some {
                assert(p->0.drop_last().len() + 1 == p->0.len());
            }
        },
        ArgumentType::NewId(_) => {
            if generic {
                let p = (decode_blob(bytes)->0).0;
                assert(p->0.drop_last().len() + 1 == p->0.len());
            }
        },
        _ => {},
    }
}

/// The arguments that were read fit the signature that they were read for.
pub proof fn lemma_decoded_args_fit(
    sig: Seq<ArgumentType>,
    generic: bool,
    bytes: Seq<u8>,
    fds: Seq<i32>,
)
    requires
        decode_args(sig, generic, bytes, fds) is Some,
    ensures
        wire_args_fit(decode_args(sig, generic, bytes, fds)->0, sig, generic),
    decreases sig.len(),
{
    if sig.len() > 0 {
        let d = decode_arg(sig[0], generic, bytes, fds)->0;
        lemma_decoded_arg_fits(sig[0], generic, bytes, fds);
        lemma_decoded_args_fit(
            sig.skip(1),
            generic,
            bytes.skip(d.bytes_used as int),
            fds.skip(d.fds_used as int),
        );
        let rest = decode_args(
            sig.skip(1),
            generic,
            bytes.skip(d.bytes_used as int),
            fds.skip(d.fds_used as int),
        )->0;
        let all = seq![d.arg] + rest;
        assert forall|i: int| 0 <= i < all.len() implies wire_arg_fits(
            #[trigger] all[i],
            sig[i],
            generic,
        ) by {
            if i > 0 {
                assert(all[i] == rest[i - 1]);
                assert(sig[i] == sig.skip(1)[i - 1]);
            }
        }
    }
}

/// The descriptors of the arguments that were read are the first of those
/// that waited.
pub proof fn lemma_decoded_fds(sig: Seq<ArgumentType>, generic: bool, bytes: Seq<u8>, fds: Seq<i32>)
    requires
        decode_args(sig, generic, bytes, fds) is Some,
    ensures
        args_fds(decode_args(sig, generic, bytes, fds)->0).len() <= fds.len(),
        args_fds(decode_args(sig, generic, bytes, fds)->0) == fds.take(
            args_fds(decode_args(sig, generic, bytes, fds)->0).len() as int,
        ),
    decreases sig.len(),
{
    let all = decode_args(sig, generic, bytes, fds)->0;
    if sig.len() == 0 {
        assert(args_fds(all) =~= fds.take(0));
    } else {
        let d = decode_arg(sig[0], generic, bytes, fds)->0;
        lemma_decoded_arg_fits(sig[0], generic, bytes, fds);
        let rest_fds = fds.skip(d.fds_used as int);
        lemma_decoded_fds(sig.skip(1), generic, bytes.skip(d.bytes_used as int), rest_fds);
        let rest = decode_args(sig.skip(1), generic, bytes.skip(d.bytes_used as int), rest_fds)->0;
        assert(all == seq![d.arg] + rest);
        lemma_args_bytes_front(all);
        assert(all.skip(1) =~= rest);
        assert(all[0] == d.arg);
        let n = args_fds(rest).len();
        assert(args_fds(rest) == rest_fds.take(n as int));
        assert(args_fds(all) =~= fds.take(args_fds(all).len() as int));
    }
}

} // verus!
