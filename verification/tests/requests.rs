use wayland_backend::backend::{InnerBackend, ObjectData, DISPLAY_HANDLE, DISPLAY_ID};
use wayland_backend::message::{ArgList, Argument, Message, ObjectInfo};
use wayland_backend::object_id::InnerObjectId;
use wayland_backend::protocol::{AllowNull, ArgumentType, Interface, MessageDesc, Registry};
use wayland_backend::request::{Misuse, SendError, Verdict};
use wayland_backend::state::{InvalidId, IoError, IoErrorKind, WaylandError};

const ROOT: usize = 1;
const X: usize = 2;
const Y: usize = 3;

fn req(
    name: &str,
    signature: Vec<ArgumentType>,
    is_destructor: bool,
    child_interface: Option<usize>,
    arg_interfaces: Vec<usize>,
) -> MessageDesc {
    MessageDesc {
        name: name.as_bytes().to_vec(),
        signature,
        is_destructor,
        child_interface,
        arg_interfaces,
    }
}

fn request_registry() -> Registry {
    let root = Interface {
        name: b"root".to_vec(),
        version: 1,
        requests: vec![
            req("make", vec![ArgumentType::NewId(AllowNull::No)], false, None, vec![]),
            req("get", vec![ArgumentType::NewId(AllowNull::No)], false, Some(X), vec![]),
            req(
                "mix",
                vec![
                    ArgumentType::Object(AllowNull::Yes),
                    ArgumentType::Str(AllowNull::Yes),
                    ArgumentType::Array(AllowNull::Yes),
                    ArgumentType::Fixed,
                    ArgumentType::Int,
                    ArgumentType::Uint,
                    ArgumentType::Fd,
                ],
                false,
                None,
                vec![X],
            ),
        ],
        events: vec![],
    };
    let x = Interface {
        name: b"X".to_vec(),
        version: 3,
        requests: vec![
            req("destroy", vec![], true, None, vec![]),
            req("poke", vec![ArgumentType::Object(AllowNull::No)], false, None, vec![X]),
            req("spawn", vec![ArgumentType::NewId(AllowNull::No)], false, Some(Y), vec![]),
            req("name", vec![ArgumentType::Str(AllowNull::No)], false, None, vec![]),
            req("blob", vec![ArgumentType::Array(AllowNull::No)], false, None, vec![]),
        ],
        events: vec![],
    };
    let y = Interface {
        name: b"Y".to_vec(),
        version: 1,
        requests: vec![req("destroy", vec![], true, None, vec![])],
        events: vec![],
    };
    Registry::new(vec![root, x, y]).expect("the registry is valid")
}

fn connected() -> InnerBackend<&'static str> {
    InnerBackend::connect(request_registry(), ROOT, 40, 1)
}

fn message(sender: InnerObjectId, opcode: u16, args: Vec<Argument>) -> Message {
    Message { sender_id: sender, opcode, args: ArgList::from_vec(args) }
}

fn null() -> InnerObjectId {
    InnerBackend::<&'static str>::null_id()
}

fn make_x(b: &mut InnerBackend<&'static str>, data: &'static str) -> InnerObjectId {
    let display = b.display_id();
    b.send_request(
        message(display, 0, vec![Argument::NewId(null())]),
        Some(data),
        Some((X, 3)),
    )
    .expect("the request is sent")
    .child
}

#[test]
fn connection_starts_with_the_root_object() {
    let b = connected();
    let d = b.display_id();
    assert_eq!(
        d,
        InnerObjectId { connection: 1, id: 1, ptr: DISPLAY_HANDLE, alive: Some(0), interface: ROOT }
    );
    assert_eq!((d.id, d.ptr, d.alive, d.interface), (DISPLAY_ID, DISPLAY_HANDLE, Some(0), ROOT));
    assert_eq!(b.display_ptr(), 40);
    assert_eq!(b.last_error(), None);
    assert!(b.is_alive(&d));
    assert_eq!(b.info(d), Ok(ObjectInfo { id: 1, interface: ROOT, version: 1 }));
    assert!(matches!(b.get_data(d), Ok(ObjectData::Dumb)));
    assert!(b.outgoing.is_empty());
    assert_eq!(b.next_id, 2);
}

#[test]
fn guest_connection_has_a_foreign_root_object() {
    let mut b: InnerBackend<&'static str> =
        InnerBackend::from_foreign_display(request_registry(), ROOT, 40, 9, 1);
    let d = b.display_id();
    assert_eq!((d.id, d.ptr, d.alive, d.interface), (1, DISPLAY_HANDLE, None, ROOT));
    assert_eq!(b.state.evq, 9);
    assert_eq!(b.info(d), Ok(ObjectInfo { id: 1, interface: ROOT, version: 1 }));
    assert!(matches!(b.get_data(d), Err(InvalidId)));
    assert_eq!(b.set_data(d, "no"), Err(InvalidId));
    let child = make_x(&mut b, "x");
    assert_eq!(child.id, 2);
    assert!(b.is_alive(&child));
}

#[test]
fn null_identity_is_null() {
    let n = null();
    assert_eq!((n.id, n.ptr, n.alive, n.interface), (0, 0, None, 0));
    assert!(n.is_null());
    let b = connected();
    assert!(!b.is_alive(&n));
    assert_eq!(b.info(n), Err(InvalidId));
    assert_eq!(n.as_ptr(&b), 0);
}

#[test]
fn constructor_of_chosen_interface_creates_object_two() {
    let mut b = connected();
    let display = b.display_id();
    let msg = message(display, 0, vec![Argument::NewId(null())]);
    assert_eq!(b.check_request(&msg, true, Some((X, 3))), Verdict::Send);
    let sent = b.send_request(msg, Some("x"), Some((X, 3))).unwrap();
    assert_eq!(sent.child, InnerObjectId { connection: 1, id: 2, ptr: 1, alive: Some(1), interface: X });
    assert_eq!((sent.child.id, sent.child.ptr, sent.child.interface), (2, 1, X));
    assert!(sent.destroyed.is_none());
    assert_eq!(b.info(sent.child), Ok(ObjectInfo { id: 2, interface: X, version: 3 }));
    assert!(matches!(b.get_data(sent.child), Ok(ObjectData::User(&"x"))));
    assert_eq!(
        b.outgoing,
        vec![
            1, 0, 0, 0, 0, 0, 24, 0, // header: object 1, opcode 0, 24 bytes
            2, 0, 0, 0, b'X', 0, 0, 0, // the name of the interface
            3, 0, 0, 0, // its version
            2, 0, 0, 0, // the new object
        ]
    );
    assert_eq!(b.next_id, 3);
}

#[test]
fn constructor_of_fixed_interface_takes_the_version_of_the_sender() {
    let mut b = connected();
    let display = b.display_id();
    let sent = b
        .send_request(message(display, 1, vec![Argument::NewId(null())]), Some("x"), None)
        .unwrap();
    assert_eq!(b.info(sent.child), Ok(ObjectInfo { id: 2, interface: X, version: 1 }));
    assert_eq!(b.outgoing, vec![1, 0, 0, 0, 1, 0, 12, 0, 2, 0, 0, 0]);
    let x = make_x(&mut b, "x3");
    assert_eq!(x.id, 3);
    let y = b
        .send_request(message(x, 2, vec![Argument::NewId(null())]), Some("y"), None)
        .unwrap()
        .child;
    assert_eq!(b.info(y), Ok(ObjectInfo { id: 4, interface: Y, version: 3 }));
    let again = b
        .send_request(message(x, 2, vec![Argument::NewId(null())]), Some("y"), Some((Y, 3)))
        .unwrap()
        .child;
    assert_eq!(b.info(again), Ok(ObjectInfo { id: 5, interface: Y, version: 3 }));
}

#[test]
fn requests_queue_up_in_order() {
    let mut b = connected();
    let x = make_x(&mut b, "x");
    let before = b.outgoing.len();
    b.send_request(message(x, 3, vec![Argument::Str(Some(b"a".to_vec()))]), None, None).unwrap();
    b.send_request(message(x, 1, vec![Argument::Object(x)]), None, None).unwrap();
    assert_eq!(
        b.outgoing[before..].to_vec(),
        vec![
            2, 0, 0, 0, 3, 0, 16, 0, 2, 0, 0, 0, b'a', 0, 0, 0, // name("a")
            2, 0, 0, 0, 1, 0, 12, 0, 2, 0, 0, 0, // poke(self)
        ]
    );
}

#[test]
fn every_kind_of_argument_is_written() {
    let mut b = connected();
    let x = make_x(&mut b, "x");
    let before = b.outgoing.len();
    let display = b.display_id();
    b.send_request(
        message(
            display,
            2,
            vec![
                Argument::Object(x),
                Argument::Str(None),
                Argument::Array(Some(vec![7])),
                Argument::Fixed(-256),
                Argument::Int(-1),
                Argument::Uint(1),
                Argument::Fd(33),
            ],
        ),
        None,
        None,
    )
    .unwrap();
    assert_eq!(
        b.outgoing[before..].to_vec(),
        vec![
            1, 0, 0, 0, 2, 0, 36, 0, //
            2, 0, 0, 0, // object
            0xFF, 0xFF, 0xFF, 0xFF, // null string
            1, 0, 0, 0, 7, 0, 0, 0, // array
            0, 0xFF, 0xFF, 0xFF, // -1.0
            0xFF, 0xFF, 0xFF, 0xFF, // -1
            1, 0, 0, 0, // 1
        ]
    );
    assert_eq!(b.outgoing_fds, vec![33]);
}

#[test]
fn null_object_goes_where_it_is_allowed() {
    let mut b = connected();
    let x = make_x(&mut b, "x");
    let display = b.display_id();
    let args = |o: InnerObjectId| {
        vec![
            Argument::Object(o),
            Argument::Str(None),
            Argument::Array(None),
            Argument::Fixed(0),
            Argument::Int(0),
            Argument::Uint(0),
            Argument::Fd(0),
        ]
    };
    assert_eq!(b.check_request(&message(display, 2, args(null())), false, None), Verdict::Send);
    assert_eq!(
        b.check_request(&message(x, 1, vec![Argument::Object(null())]), false, None),
        Verdict::Misuse(Misuse::NullArgument)
    );
    assert_eq!(
        b.check_request(&message(x, 3, vec![Argument::Str(None)]), false, None),
        Verdict::Misuse(Misuse::NullArgument)
    );
    assert_eq!(
        b.check_request(&message(x, 4, vec![Argument::Array(None)]), false, None),
        Verdict::Misuse(Misuse::NullArgument)
    );
}

#[test]
fn destructor_retires_the_sender_once() {
    let mut b = connected();
    let x = make_x(&mut b, "x");
    let before = b.outgoing.len();
    let sent = b.send_request(message(x, 0, vec![]), None, None).unwrap();
    assert_eq!(sent.child, null());
    let gone = sent.destroyed.expect("the sender was retired");
    assert_eq!((gone.id, gone.version, gone.interface, gone.data), (2, 3, X, Some("x")));
    assert_eq!(b.outgoing[before..].to_vec(), vec![2, 0, 0, 0, 0, 0, 8, 0]);
    assert!(!b.is_alive(&x));
    assert_eq!(
        b.send_request(message(x, 0, vec![]), None, None).map(|_| ()),
        Err(SendError::InvalidId)
    );
    assert_eq!(b.outgoing.len(), before + 8);
    assert!(b.destroy_object(x).is_none());
}

#[test]
fn destroyed_object_is_invalid_everywhere() {
    let mut b = connected();
    let x = make_x(&mut b, "x");
    b.send_request(message(x, 0, vec![]), None, None).unwrap();
    assert_eq!(
        b.send_request(message(x, 3, vec![Argument::Str(Some(vec![]))]), None, None).map(|_| ()),
        Err(SendError::InvalidId)
    );
    assert_eq!(
        b.check_request(&message(x, 3, vec![Argument::Str(Some(vec![]))]), false, None),
        Verdict::InvalidId
    );
    assert!(matches!(b.get_data(x), Err(InvalidId)));
    assert_eq!(b.info(x), Err(InvalidId));
    assert_eq!(b.set_data(x, "late"), Err(InvalidId));
    assert_eq!(x.as_ptr(&b), 0);
    assert_eq!(InnerObjectId::from_ptr(&b, X, x.ptr), Err(InvalidId));
}

#[test]
fn dead_object_argument_is_invalid() {
    let mut b = connected();
    let x = make_x(&mut b, "x");
    let other = make_x(&mut b, "other");
    b.send_request(message(other, 0, vec![]), None, None).unwrap();
    let before = b.outgoing.clone();
    assert_eq!(
        b.send_request(message(x, 1, vec![Argument::Object(other)]), None, None).map(|_| ()),
        Err(SendError::InvalidId)
    );
    assert_eq!(b.outgoing, before);
    assert!(b.is_alive(&x));
}

#[test]
fn foreign_object_argument_is_sent_by_its_number() {
    let mut b = connected();
    let x = make_x(&mut b, "x");
    let foreign = InnerObjectId { connection: 1, id: 77, ptr: 1234, alive: None, interface: X };
    let before = b.outgoing.len();
    b.send_request(message(x, 1, vec![Argument::Object(foreign)]), None, None).unwrap();
    assert_eq!(b.outgoing[before..].to_vec(), vec![2, 0, 0, 0, 1, 0, 12, 0, 77, 0, 0, 0]);
    assert_eq!(foreign.as_ptr(&b), 1234);
    assert_eq!(
        b.send_request(message(foreign, 0, vec![]), None, None).map(|_| ()),
        Err(SendError::InvalidId)
    );
}

#[test]
fn misuse_is_told_before_anything_is_sent() {
    let mut b = connected();
    let x = make_x(&mut b, "x");
    let display = b.display_id();
    let new = || vec![Argument::NewId(null())];
    let verdict = |b: &InnerBackend<&'static str>,
                   m: Message,
                   has_data: bool,
                   child: Option<(usize, u32)>| b.check_request(&m, has_data, child);
    assert_eq!(
        verdict(&b, message(display, 9, vec![]), false, None),
        Verdict::Misuse(Misuse::UnknownOpcode)
    );
    assert_eq!(
        verdict(&b, message(display, 0, vec![]), true, Some((X, 3))),
        Verdict::Misuse(Misuse::BadSignature)
    );
    assert_eq!(
        verdict(&b, message(display, 0, vec![Argument::Uint(0)]), true, Some((X, 3))),
        Verdict::Misuse(Misuse::BadSignature)
    );
    assert_eq!(
        verdict(&b, message(display, 1, new()), true, Some((Y, 1))),
        Verdict::Misuse(Misuse::WrongChildInterface)
    );
    assert_eq!(
        verdict(&b, message(display, 1, new()), true, Some((X, 3))),
        Verdict::Misuse(Misuse::WrongChildVersion)
    );
    assert_eq!(verdict(&b, message(display, 1, new()), true, Some((X, 1))), Verdict::Send);
    assert_eq!(
        verdict(&b, message(display, 0, new()), true, Some((17, 1))),
        Verdict::Misuse(Misuse::UnknownInterface)
    );
    assert_eq!(
        verdict(&b, message(display, 0, new()), true, None),
        Verdict::Misuse(Misuse::MissingChildSpec)
    );
    assert_eq!(
        verdict(&b, message(display, 0, new()), false, Some((X, 3))),
        Verdict::Misuse(Misuse::MissingObjectData)
    );
    let y = b
        .send_request(message(x, 2, new()), Some("y"), None)
        .unwrap()
        .child;
    assert_eq!(
        verdict(&b, message(x, 1, vec![Argument::Object(y)]), false, None),
        Verdict::Misuse(Misuse::WrongArgInterface)
    );
    assert_eq!(
        verdict(&b, message(x, 3, vec![Argument::Str(Some(vec![b'a', 0, b'b']))]), false, None),
        Verdict::Misuse(Misuse::BadString)
    );
    assert_eq!(
        verdict(&b, message(x, 4, vec![Argument::Array(Some(vec![0u8; 70000]))]), false, None),
        Verdict::Misuse(Misuse::TooLarge)
    );
    assert_eq!(
        verdict(&b, message(x, 4, vec![Argument::Array(Some(vec![0u8; 600]))]), false, None),
        Verdict::Send
    );
}

#[test]
fn client_numbers_run_out_below_the_numbers_of_the_server() {
    let mut b = connected();
    let display = b.display_id();
    b.next_id = 0xFEFF_FFFF;
    let msg = || message(display, 0, vec![Argument::NewId(null())]);
    let last = b.send_request(msg(), Some("last"), Some((X, 3))).unwrap().child;
    assert_eq!(last.id, 0xFEFF_FFFF);
    assert_eq!(b.check_request(&msg(), true, Some((X, 3))), Verdict::Misuse(Misuse::OutOfObjects));
}

#[test]
fn handler_can_be_replaced_and_read() {
    let mut b = connected();
    let x = make_x(&mut b, "first");
    assert!(matches!(b.get_data(x), Ok(ObjectData::User(&"first"))));
    assert_eq!(b.set_data(x, "second"), Ok(()));
    assert!(matches!(b.get_data(x), Ok(ObjectData::User(&"second"))));
    let display = b.display_id();
    assert_eq!(b.set_data(display, "no"), Err(InvalidId));
    assert_eq!(b.set_data(null(), "no"), Err(InvalidId));
    assert!(b.is_alive(&x));
    assert_eq!(b.info(x), Ok(ObjectInfo { id: 2, interface: X, version: 3 }));
}

#[test]
fn identity_is_found_again_by_its_handle() {
    let mut b = connected();
    let x = make_x(&mut b, "x");
    assert_eq!(InnerObjectId::from_ptr(&b, X, x.ptr), Ok(x));
    assert_eq!(InnerObjectId::from_ptr(&b, Y, x.ptr), Err(InvalidId));
    assert_eq!(InnerObjectId::from_ptr(&b, X, 99), Err(InvalidId));
    assert_eq!(InnerObjectId::from_ptr(&b, X, 0), Err(InvalidId));
    assert_eq!(InnerObjectId::from_ptr(&b, ROOT, DISPLAY_HANDLE), Ok(b.display_id()));
    assert_eq!(InnerObjectId::from_ptr(&b, X, DISPLAY_HANDLE), Err(InvalidId));
    assert_eq!(x.as_ptr(&b), x.ptr);
    assert_eq!(b.display_id().as_ptr(&b), DISPLAY_HANDLE);
    assert_eq!(b.find_object(2), Some(x));
    assert_eq!(b.find_object(1), Some(b.display_id()));
    assert_eq!(b.find_object(3), None);
}

#[test]
fn sticky_error_stops_requests() {
    let mut b = connected();
    let x = make_x(&mut b, "x");
    let before = b.outgoing.clone();
    let io = IoError { raw_os_error: Some(32), kind: IoErrorKind::Other };
    let stored = b.state.store_and_return_error(io);
    assert_eq!(stored, WaylandError::Io(io));
    let msg = message(x, 3, vec![Argument::Str(Some(b"a".to_vec()))]);
    assert_eq!(b.check_request(&msg, false, None), Verdict::Failed(stored));
    assert_eq!(
        b.send_request(msg, None, None).map(|_| ()),
        Err(SendError::Connection(stored))
    );
    assert_eq!(b.outgoing, before);
    // the error is told even where the sender is dead or the request a misuse
    assert_eq!(
        b.check_request(&message(null(), 9, vec![]), false, None),
        Verdict::Failed(stored)
    );
    assert_eq!(b.last_error(), Some(stored));
}
