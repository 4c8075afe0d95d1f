use wayland_backend::backend::{Frame, InnerBackend};
use wayland_backend::protocol::{ArgumentType, Interface, MessageDesc, Registry};
use wayland_backend::state::{
    classify, ConnectionState, IoError, IoErrorKind, ProtocolError, ViolationKind, WaylandError,
};
use wayland_backend::transport::{Incoming, InnerReadEventsGuard, Prepared};

fn plain() -> InnerBackend<u8> {
    let root = Interface {
        name: b"root".to_vec(),
        version: 1,
        requests: vec![],
        events: vec![MessageDesc {
            name: b"note".to_vec(),
            signature: vec![ArgumentType::Uint],
            is_destructor: false,
            child_interface: None,
            arg_interfaces: vec![],
        }],
    };
    InnerBackend::connect(Registry::new(vec![root]).unwrap(), 1, 5, 1)
}

fn ready(b: &mut InnerBackend<u8>) -> InnerReadEventsGuard {
    match InnerReadEventsGuard::try_new(b) {
        Ok(Prepared::Ready(g)) => g,
        other => panic!("the right to read was not granted: {:?}", other),
    }
}

fn would_block() -> IoError {
    IoError { raw_os_error: Some(11), kind: IoErrorKind::WouldBlock }
}

fn broken_pipe() -> IoError {
    IoError { raw_os_error: Some(32), kind: IoErrorKind::Other }
}

fn eproto() -> IoError {
    IoError { raw_os_error: Some(nix::errno::Errno::EPROTO as i32), kind: IoErrorKind::Other }
}

#[test]
fn only_one_guard_holds_the_right_to_read() {
    let mut b = plain();
    let first = ready(&mut b);
    assert_eq!(first.ticket, 0);
    assert_eq!(b.reader, Some(0));
    assert!(matches!(InnerReadEventsGuard::try_new(&mut b), Ok(Prepared::Busy)));
    assert!(matches!(InnerReadEventsGuard::try_new(&mut b), Ok(Prepared::Busy)));
    assert_eq!(b.reader, Some(0));
    first.cancel(&mut b);
    assert_eq!(b.reader, None);
    let second = ready(&mut b);
    assert_eq!(second.ticket, 1);
    assert_eq!(second.connection_fd(&b), 5);
    assert_eq!(second.read(&mut b, Ok(Incoming { bytes: vec![], fds: vec![] })), Ok(0));
    assert_eq!(b.reader, None);
    assert_eq!(ready(&mut b).ticket, 2);
}

#[test]
fn pending_messages_must_be_dispatched_before_reading() {
    let mut b = plain();
    let g = ready(&mut b);
    let bytes = vec![1, 0, 0, 0, 0, 0, 12, 0, 9, 0, 0, 0, 1, 0, 0, 0, 0, 0, 12, 0, 8, 0, 0, 0];
    assert_eq!(g.read(&mut b, Ok(Incoming { bytes, fds: vec![] })), Ok(2));
    assert!(matches!(InnerReadEventsGuard::try_new(&mut b), Ok(Prepared::Pending(2))));
    assert_eq!(b.reader, None);
    b.queue.pop_front();
    assert!(matches!(InnerReadEventsGuard::try_new(&mut b), Ok(Prepared::Pending(1))));
    b.queue.pop_front();
    assert!(matches!(InnerReadEventsGuard::try_new(&mut b), Ok(Prepared::Ready(_))));
}

#[test]
fn read_cuts_bytes_into_messages() {
    let mut b = plain();
    let g = ready(&mut b);
    let bytes = vec![
        1, 0, 0, 0, 0, 0, 12, 0, 9, 0, 0, 0, // a whole message
        7, 0, 0, 0, 2, 1, 8, 0, // a message without arguments
        3, 0, 0, 0, 0, 0, 16, 0, 1, 2, // the start of a third
    ];
    assert_eq!(g.read(&mut b, Ok(Incoming { bytes, fds: vec![4, 5] })), Ok(2));
    assert_eq!(
        b.queue.iter().cloned().collect::<Vec<Frame>>(),
        vec![
            Frame { sender: 1, opcode: 0, body: vec![9, 0, 0, 0] },
            Frame { sender: 7, opcode: 0x0102, body: vec![] },
        ]
    );
    assert_eq!(b.incoming, vec![3, 0, 0, 0, 0, 0, 16, 0, 1, 2]);
    assert_eq!(b.incoming_fds, vec![4, 5]);
    assert_eq!(b.last_error(), None);
}

#[test]
fn read_completes_a_message_from_an_earlier_read() {
    let mut b = plain();
    let g = ready(&mut b);
    assert_eq!(g.read(&mut b, Ok(Incoming { bytes: vec![3, 0, 0], fds: vec![1] })), Ok(0));
    assert!(b.queue.is_empty());
    let g = ready(&mut b);
    assert_eq!(
        g.read(&mut b, Ok(Incoming { bytes: vec![0, 0, 0, 16, 0, 1, 2, 3], fds: vec![] })),
        Ok(0)
    );
    let g = ready(&mut b);
    assert_eq!(
        g.read(&mut b, Ok(Incoming { bytes: vec![4, 5, 6, 7, 8, 0xAA], fds: vec![2] })),
        Ok(1)
    );
    assert_eq!(
        b.queue.iter().cloned().collect::<Vec<Frame>>(),
        vec![Frame { sender: 3, opcode: 0, body: vec![1, 2, 3, 4, 5, 6, 7, 8] }]
    );
    assert_eq!(b.incoming, vec![0xAA]);
    assert_eq!(b.incoming_fds, vec![1, 2]);
}

#[test]
fn header_with_impossible_size_violates_the_protocol() {
    for size in [0u8, 4, 7, 9, 10, 11] {
        let mut b = plain();
        let g = ready(&mut b);
        let bytes = vec![
            1, 0, 0, 0, 0, 0, 8, 0, // a good message
            6, 0, 0, 0, 0, 0, size, 0, 0, 0, 0, 0, // a bad header
        ];
        let err = WaylandError::Protocol(ProtocolError {
            code: ViolationKind::MalformedHeader,
            object_id: 6,
            object_interface: 0,
        });
        assert_eq!(g.read(&mut b, Ok(Incoming { bytes, fds: vec![] })), Err(err));
        assert_eq!(b.last_error(), Some(err));
        assert_eq!(b.queue.len(), 1);
        assert_eq!(b.reader, None);
        assert_eq!(b.incoming.len(), 12);
    }
}

#[test]
fn would_block_is_not_sticky() {
    let mut b = plain();
    let g = ready(&mut b);
    assert_eq!(g.read(&mut b, Err(would_block())), Err(WaylandError::Io(would_block())));
    assert_eq!(b.last_error(), None);
    assert_eq!(b.reader, None);
    assert_eq!(b.flush(Err(would_block())), Err(WaylandError::Io(would_block())));
    assert_eq!(b.last_error(), None);
    assert!(matches!(InnerReadEventsGuard::try_new(&mut b), Ok(Prepared::Ready(_))));
}

#[test]
fn transport_error_is_sticky_and_the_first_one_wins() {
    let mut b = plain();
    let g = ready(&mut b);
    let first = WaylandError::Io(broken_pipe());
    assert_eq!(g.read(&mut b, Err(broken_pipe())), Err(first));
    assert_eq!(b.last_error(), Some(first));
    assert_eq!(b.reader, None);
    let later = IoError { raw_os_error: Some(104), kind: IoErrorKind::Other };
    assert_eq!(b.state.store_and_return_error(later), first);
    assert_eq!(b.state.store_if_not_wouldblock_and_return_error(later), first);
    assert_eq!(
        b.state.store_if_not_wouldblock_and_return_error(would_block()),
        WaylandError::Io(would_block())
    );
    assert_eq!(b.state.violation(ViolationKind::UnknownOpcode, 2, 1), first);
    assert_eq!(b.last_error(), Some(first));
    assert_eq!(b.state.no_last_error(), Err(first));
    assert_eq!(b.flush(Err(later)), Err(first));
    assert_eq!(b.flush(Ok(0)), Err(first));
}

#[test]
fn read_after_an_error_drops_what_was_read() {
    let mut b = plain();
    let g = ready(&mut b);
    b.state.store_and_return_error(broken_pipe());
    let bytes = vec![1, 0, 0, 0, 0, 0, 8, 0];
    assert_eq!(
        g.read(&mut b, Ok(Incoming { bytes, fds: vec![3] })),
        Err(WaylandError::Io(broken_pipe()))
    );
    assert!(b.queue.is_empty());
    assert!(b.incoming.is_empty());
    assert!(b.incoming_fds.is_empty());
    assert_eq!(b.reader, None);
}

#[test]
fn protocol_errno_brings_the_recorded_violation() {
    let recorded = ProtocolError {
        code: ViolationKind::UnknownObject,
        object_id: 12,
        object_interface: 1,
    };
    let mut state = ConnectionState {
        display: 1,
        evq: 0,
        display_id: InnerBackend::<u8>::null_id(),
        last_error: None,
        protocol_error: recorded,
    };
    assert_eq!(state.no_last_error(), Ok(()));
    assert_eq!(state.store_and_return_error(eproto()), WaylandError::Protocol(recorded));
    assert_eq!(state.last_error, Some(WaylandError::Protocol(recorded)));
    assert_eq!(state.protocol_error, recorded);

    let mut state = ConnectionState { last_error: None, ..state };
    let no_number = IoError { raw_os_error: None, kind: IoErrorKind::Other };
    assert_eq!(state.store_and_return_error(no_number), WaylandError::Io(no_number));
}

#[test]
fn classify_tells_protocol_errors_by_their_number() {
    let recorded = ProtocolError {
        code: ViolationKind::BadNewId,
        object_id: 3,
        object_interface: 2,
    };
    let e = |raw| IoError { raw_os_error: raw, kind: IoErrorKind::Other };
    assert_eq!(classify(e(Some(71)), 71, recorded), WaylandError::Protocol(recorded));
    assert_eq!(classify(e(Some(72)), 71, recorded), WaylandError::Io(e(Some(72))));
    assert_eq!(classify(e(None), 71, recorded), WaylandError::Io(e(None)));
    let blocked = IoError { raw_os_error: Some(71), kind: IoErrorKind::WouldBlock };
    assert_eq!(classify(blocked, 71, recorded), WaylandError::Protocol(recorded));
}

#[test]
fn violation_is_recorded_with_its_object() {
    let mut b = plain();
    let err = b.state.violation(ViolationKind::WrongInterface, 9, 1);
    let details = ProtocolError {
        code: ViolationKind::WrongInterface,
        object_id: 9,
        object_interface: 1,
    };
    assert_eq!(err, WaylandError::Protocol(details));
    assert_eq!(b.state.protocol_error, details);
    assert_eq!(b.state.record(WaylandError::Io(broken_pipe())), err);
}

#[test]
fn flush_takes_written_bytes_off_the_front() {
    let mut b = plain();
    b.outgoing = vec![1, 2, 3, 4, 5, 6, 7, 8];
    b.outgoing_fds = vec![9, 10];
    {
        let (bytes, fds) = b.pending_output().unwrap();
        assert_eq!(bytes, &vec![1, 2, 3, 4, 5, 6, 7, 8]);
        assert_eq!(fds, &vec![9, 10]);
    }
    assert_eq!(b.flush(Ok(0)), Ok(()));
    assert_eq!(b.outgoing, vec![1, 2, 3, 4, 5, 6, 7, 8]);
    assert_eq!(b.outgoing_fds, vec![9, 10]);
    assert_eq!(b.flush(Ok(3)), Ok(()));
    assert_eq!(b.outgoing, vec![4, 5, 6, 7, 8]);
    assert!(b.outgoing_fds.is_empty());
    assert_eq!(b.flush(Ok(5)), Ok(()));
    assert!(b.outgoing.is_empty());
    b.outgoing = vec![1, 2];
    assert_eq!(b.flush(Ok(50)), Ok(()));
    assert!(b.outgoing.is_empty());
}

#[test]
fn flush_error_keeps_what_waits() {
    let mut b = plain();
    b.outgoing = vec![1, 2, 3, 4];
    b.outgoing_fds = vec![7];
    assert_eq!(b.flush(Err(would_block())), Err(WaylandError::Io(would_block())));
    assert_eq!(b.outgoing, vec![1, 2, 3, 4]);
    assert_eq!(b.flush(Err(broken_pipe())), Err(WaylandError::Io(broken_pipe())));
    assert_eq!(b.outgoing, vec![1, 2, 3, 4]);
    assert_eq!(b.outgoing_fds, vec![7]);
    assert_eq!(b.last_error(), Some(WaylandError::Io(broken_pipe())));
    assert_eq!(b.pending_output().map(|_| ()), Err(WaylandError::Io(broken_pipe())));
}

#[test]
fn no_guard_is_made_once_the_tickets_are_used_up() {
    let mut b = plain();
    b.next_ticket = u64::MAX - 1;
    let last = ready(&mut b);
    assert_eq!(last.ticket, u64::MAX - 1);
    assert_eq!(b.next_ticket, u64::MAX);
    assert!(matches!(InnerReadEventsGuard::try_new(&mut b), Ok(Prepared::Busy)));
    last.cancel(&mut b);
    assert!(matches!(InnerReadEventsGuard::try_new(&mut b), Ok(Prepared::Exhausted)));
    assert_eq!(b.reader, None);
    assert_eq!(b.next_ticket, u64::MAX);
}
