use wayland_backend::message::{check_for_signature, ArgList, Argument, Message};
use wayland_backend::object_id::InnerObjectId;
use wayland_backend::protocol::{
    same_interface, AllowNull, ArgumentType, Interface, MessageDesc, Registry,
};

fn desc(
    name: &str,
    signature: Vec<ArgumentType>,
    child_interface: Option<usize>,
    arg_interfaces: Vec<usize>,
) -> MessageDesc {
    MessageDesc {
        name: name.as_bytes().to_vec(),
        signature,
        is_destructor: false,
        child_interface,
        arg_interfaces,
    }
}

fn interface(name: &str, requests: Vec<MessageDesc>, events: Vec<MessageDesc>) -> Interface {
    Interface { name: name.as_bytes().to_vec(), version: 1, requests, events }
}

fn null_object() -> InnerObjectId {
    InnerObjectId { connection: 0, id: 0, ptr: 0, alive: None, interface: 0 }
}

#[test]
fn registry_puts_the_anonymous_interface_first() {
    let r = Registry::new(vec![interface("a", vec![], vec![]), interface("b", vec![], vec![])])
        .unwrap();
    assert_eq!(r.len(), 3);
    let anon = r.get(0).unwrap();
    assert_eq!(anon.name, b"<anonymous>".to_vec());
    assert_eq!(anon.version, 0);
    assert!(anon.requests.is_empty() && anon.events.is_empty());
    assert_eq!(r.get(1).unwrap().name, b"a".to_vec());
    assert_eq!(r.get(2).unwrap().name, b"b".to_vec());
    assert!(r.get(3).is_none());
}

#[test]
fn empty_registry_holds_the_anonymous_interface() {
    let r = Registry::new(vec![]).unwrap();
    assert_eq!(r.len(), 1);
    assert_eq!(r.lookup(&b"<anonymous>".to_vec()), Some(0));
}

#[test]
fn registry_finds_interfaces_by_name() {
    let r = Registry::new(vec![interface("a", vec![], vec![]), interface("b", vec![], vec![])])
        .unwrap();
    assert_eq!(r.lookup(&b"b".to_vec()), Some(2));
    assert_eq!(r.lookup(&b"a".to_vec()), Some(1));
    assert_eq!(r.lookup(&b"c".to_vec()), None);
    assert_eq!(r.lookup(&b"".to_vec()), None);
}

#[test]
fn registry_refuses_duplicate_names() {
    assert!(Registry::new(vec![interface("a", vec![], vec![]), interface("a", vec![], vec![])])
        .is_none());
    assert!(Registry::new(vec![interface("<anonymous>", vec![], vec![])]).is_none());
}

#[test]
fn registry_refuses_unknown_interfaces() {
    let child = desc("make", vec![ArgumentType::NewId(AllowNull::No)], Some(2), vec![]);
    assert!(Registry::new(vec![interface("a", vec![child.clone()], vec![])]).is_none());
    assert!(Registry::new(vec![
        interface("a", vec![child], vec![]),
        interface("b", vec![], vec![])
    ])
    .is_some());
    let object = desc("use", vec![ArgumentType::Object(AllowNull::No)], None, vec![9]);
    assert!(Registry::new(vec![interface("a", vec![], vec![object])]).is_none());
}

#[test]
fn registry_wants_an_interface_for_each_object_argument() {
    let sig = vec![
        ArgumentType::Object(AllowNull::No),
        ArgumentType::Uint,
        ArgumentType::Object(AllowNull::Yes),
    ];
    assert!(Registry::new(vec![interface(
        "a",
        vec![desc("m", sig.clone(), None, vec![1])],
        vec![]
    )])
    .is_none());
    assert!(Registry::new(vec![interface(
        "a",
        vec![desc("m", sig.clone(), None, vec![1, 0, 1])],
        vec![]
    )])
    .is_none());
    assert!(Registry::new(vec![interface(
        "a",
        vec![desc("m", sig, None, vec![1, 0])],
        vec![]
    )])
    .is_some());
}

#[test]
fn registry_refuses_two_new_objects_in_one_message() {
    let twice = vec![ArgumentType::NewId(AllowNull::No), ArgumentType::NewId(AllowNull::No)];
    assert!(Registry::new(vec![interface("a", vec![], vec![desc("m", twice, Some(1), vec![])])])
        .is_none());
}

#[test]
fn interfaces_are_the_same_when_their_positions_are() {
    assert!(same_interface(3, 3));
    assert!(!same_interface(3, 4));
    assert!(same_interface(0, 0));
}

#[test]
fn signature_check_looks_at_arity_and_kinds() {
    let sig = vec![
        ArgumentType::Int,
        ArgumentType::Str(AllowNull::No),
        ArgumentType::Object(AllowNull::No),
    ];
    let good = ArgList::from_vec(vec![
        Argument::Int(1),
        Argument::Str(None),
        Argument::Object(null_object()),
    ]);
    assert!(check_for_signature(&sig, &good));
    let short = ArgList::from_vec(vec![Argument::Int(1), Argument::Str(None)]);
    assert!(!check_for_signature(&sig, &short));
    let wrong = ArgList::from_vec(vec![
        Argument::Uint(1),
        Argument::Str(None),
        Argument::Object(null_object()),
    ]);
    assert!(!check_for_signature(&sig, &wrong));
    let swapped = ArgList::from_vec(vec![
        Argument::Int(1),
        Argument::Object(null_object()),
        Argument::Str(None),
    ]);
    assert!(!check_for_signature(&sig, &swapped));
    assert!(check_for_signature(&vec![], &ArgList::new()));
    assert!(!check_for_signature(&vec![], &good));
}

#[test]
fn signature_check_knows_every_kind() {
    let sig = vec![
        ArgumentType::Int,
        ArgumentType::Uint,
        ArgumentType::Fixed,
        ArgumentType::Str(AllowNull::Yes),
        ArgumentType::Object(AllowNull::Yes),
        ArgumentType::NewId(AllowNull::No),
        ArgumentType::Array(AllowNull::No),
        ArgumentType::Fd,
    ];
    let args = ArgList::from_vec(vec![
        Argument::Int(-1),
        Argument::Uint(1),
        Argument::Fixed(256),
        Argument::Str(Some(b"s".to_vec())),
        Argument::Object(null_object()),
        Argument::NewId(null_object()),
        Argument::Array(Some(vec![1])),
        Argument::Fd(3),
    ]);
    assert!(check_for_signature(&sig, &args));
    let fixed_for_int = ArgList::from_vec(vec![Argument::Fixed(1)]);
    assert!(!check_for_signature(&vec![ArgumentType::Int], &fixed_for_int));
    let new_for_object = ArgList::from_vec(vec![Argument::NewId(null_object())]);
    assert!(!check_for_signature(&vec![ArgumentType::Object(AllowNull::Yes)], &new_for_object));
    let array_for_str = ArgList::from_vec(vec![Argument::Array(None)]);
    assert!(!check_for_signature(&vec![ArgumentType::Str(AllowNull::Yes)], &array_for_str));
}

#[test]
fn argument_list_keeps_order() {
    let mut list = ArgList::new();
    assert_eq!(list.len(), 0);
    assert!(list.get(0).is_none());
    list.push(Argument::Uint(10));
    list.push(Argument::Int(-20));
    list.push(Argument::Fd(30));
    list.push(Argument::Str(Some(b"forty".to_vec())));
    list.push(Argument::Array(None));
    assert_eq!(list.len(), 5);
    assert_eq!(list.get(0), Some(&Argument::Uint(10)));
    assert_eq!(list.get(1), Some(&Argument::Int(-20)));
    assert_eq!(list.get(2), Some(&Argument::Fd(30)));
    assert_eq!(list.get(3), Some(&Argument::Str(Some(b"forty".to_vec()))));
    assert_eq!(list.get(4), Some(&Argument::Array(None)));
    assert!(list.get(5).is_none());
}

#[test]
fn argument_list_from_vector_keeps_order() {
    let list = ArgList::from_vec(vec![Argument::Uint(1), Argument::Uint(2), Argument::Uint(3)]);
    assert_eq!(list.len(), 3);
    assert_eq!(list.get(0), Some(&Argument::Uint(1)));
    assert_eq!(list.get(1), Some(&Argument::Uint(2)));
    assert_eq!(list.get(2), Some(&Argument::Uint(3)));
    let mut by_hand = ArgList::new();
    by_hand.push(Argument::Uint(1));
    by_hand.push(Argument::Uint(2));
    by_hand.push(Argument::Uint(3));
    assert_eq!(list, by_hand);
    assert_eq!(ArgList::from_vec(vec![]), ArgList::new());
}

#[test]
fn message_holds_sender_opcode_and_arguments() {
    let m = Message {
        sender_id: InnerObjectId { connection: 1, id: 1, ptr: 7, alive: Some(0), interface: 1 },
        opcode: 4,
        args: ArgList::from_vec(vec![Argument::Uint(5)]),
    };
    assert_eq!(m.sender_id.protocol_id(), 1);
    assert_eq!(m.opcode, 4);
    assert_eq!(m.args.get(0), Some(&Argument::Uint(5)));
}
