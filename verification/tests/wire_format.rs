use wayland_backend::protocol::{AllowNull, ArgumentType};
use wayland_backend::wire::{
    decode_body, encode_message, read_header, Header, WireArg, MAX_MESSAGE_SIZE,
};

fn body_of(args: &Vec<WireArg>) -> (Vec<u8>, Vec<i32>) {
    let m = encode_message(7, 3, args).expect("the message fits");
    (m.bytes[8..].to_vec(), m.fds)
}

#[test]
fn header_is_number_opcode_size() {
    let m = encode_message(0x0102_0304, 0x0506, &vec![]).unwrap();
    assert_eq!(m.bytes, vec![4, 3, 2, 1, 6, 5, 8, 0]);
    assert!(m.fds.is_empty());
}

#[test]
fn words_are_little_endian() {
    let m = encode_message(1, 0, &vec![WireArg::Uint(0xA1B2_C3D4)]).unwrap();
    assert_eq!(m.bytes, vec![1, 0, 0, 0, 0, 0, 12, 0, 0xD4, 0xC3, 0xB2, 0xA1]);
}

#[test]
fn negative_integers_are_twos_complement() {
    let (body, _) = body_of(&vec![WireArg::Int(-2), WireArg::Int(i32::MIN), WireArg::Int(5)]);
    assert_eq!(body, vec![0xFE, 0xFF, 0xFF, 0xFF, 0, 0, 0, 0x80, 5, 0, 0, 0]);
}

#[test]
fn fixed_is_24_8() {
    // -1.5 is -384 in 24.8 fixed point; 2.25 is 576.
    let (body, _) = body_of(&vec![WireArg::Fixed(-384), WireArg::Fixed(576)]);
    assert_eq!(body, vec![0x80, 0xFE, 0xFF, 0xFF, 0x40, 0x02, 0, 0]);
}

#[test]
fn string_counts_its_nul_and_is_padded() {
    let (body, _) = body_of(&vec![WireArg::Str(Some(b"hi".to_vec()))]);
    assert_eq!(body, vec![3, 0, 0, 0, b'h', b'i', 0, 0]);
    let (body, _) = body_of(&vec![WireArg::Str(Some(b"abc".to_vec()))]);
    assert_eq!(body, vec![4, 0, 0, 0, b'a', b'b', b'c', 0]);
    let (body, _) = body_of(&vec![WireArg::Str(Some(b"abcd".to_vec()))]);
    assert_eq!(body, vec![5, 0, 0, 0, b'a', b'b', b'c', b'd', 0, 0, 0, 0]);
}

#[test]
fn empty_string_is_not_null() {
    let (empty, _) = body_of(&vec![WireArg::Str(Some(vec![]))]);
    assert_eq!(empty, vec![1, 0, 0, 0, 0, 0, 0, 0]);
    let (null, _) = body_of(&vec![WireArg::Str(None)]);
    assert_eq!(null, vec![0xFF, 0xFF, 0xFF, 0xFF]);
}

#[test]
fn array_is_padded_without_nul() {
    let (body, _) = body_of(&vec![WireArg::Array(Some(vec![9, 8, 7, 6, 5]))]);
    assert_eq!(body, vec![5, 0, 0, 0, 9, 8, 7, 6, 5, 0, 0, 0]);
    let (body, _) = body_of(&vec![WireArg::Array(Some(vec![]))]);
    assert_eq!(body, vec![0, 0, 0, 0]);
    let (body, _) = body_of(&vec![WireArg::Array(None)]);
    assert_eq!(body, vec![0xFF, 0xFF, 0xFF, 0xFF]);
}

#[test]
fn objects_are_their_numbers() {
    let (body, _) = body_of(&vec![WireArg::Object(0), WireArg::Object(42), WireArg::NewId(3)]);
    assert_eq!(body, vec![0, 0, 0, 0, 42, 0, 0, 0, 3, 0, 0, 0]);
}

#[test]
fn generic_new_id_carries_name_and_version() {
    let (body, _) = body_of(&vec![WireArg::NewIdGeneric {
        name: b"X".to_vec(),
        version: 3,
        id: 2,
    }]);
    assert_eq!(body, vec![2, 0, 0, 0, b'X', 0, 0, 0, 3, 0, 0, 0, 2, 0, 0, 0]);
}

#[test]
fn descriptors_travel_beside_the_bytes() {
    let m = encode_message(1, 2, &vec![WireArg::Fd(11), WireArg::Uint(1), WireArg::Fd(12)]).unwrap();
    assert_eq!(m.bytes, vec![1, 0, 0, 0, 2, 0, 12, 0, 1, 0, 0, 0]);
    assert_eq!(m.fds, vec![11, 12]);
}

#[test]
fn size_counts_the_header() {
    let m = encode_message(1, 0, &vec![WireArg::Array(Some(vec![0u8; 300]))]).unwrap();
    assert_eq!(m.bytes.len(), 8 + 4 + 300);
    assert_eq!(&m.bytes[6..8], &[0x38, 0x01]);
}

#[test]
fn largest_message_fits_and_one_word_more_does_not() {
    let most = MAX_MESSAGE_SIZE - 8 - 4;
    let m = encode_message(1, 0, &vec![WireArg::Array(Some(vec![1u8; most]))]).unwrap();
    assert_eq!(m.bytes.len(), MAX_MESSAGE_SIZE);
    assert_eq!(&m.bytes[6..8], &[0xFC, 0xFF]);
    assert!(encode_message(1, 0, &vec![WireArg::Array(Some(vec![1u8; most + 1]))]).is_none());
    assert!(encode_message(
        1,
        0,
        &vec![WireArg::Array(Some(vec![1u8; most])), WireArg::Uint(0)]
    )
    .is_none());
}

#[test]
fn reading_gives_back_what_was_written() {
    let sig = vec![
        ArgumentType::Int,
        ArgumentType::Uint,
        ArgumentType::Fixed,
        ArgumentType::Str(AllowNull::No),
        ArgumentType::Str(AllowNull::Yes),
        ArgumentType::Object(AllowNull::No),
        ArgumentType::Object(AllowNull::Yes),
        ArgumentType::NewId(AllowNull::No),
        ArgumentType::Array(AllowNull::No),
        ArgumentType::Array(AllowNull::Yes),
        ArgumentType::Fd,
        ArgumentType::Fd,
    ];
    let args = vec![
        WireArg::Int(-7),
        WireArg::Uint(u32::MAX),
        WireArg::Fixed(i32::MIN),
        WireArg::Str(Some(b"hello".to_vec())),
        WireArg::Str(None),
        WireArg::Object(12),
        WireArg::Object(0),
        WireArg::NewId(0xFF00_0001),
        WireArg::Array(Some(vec![0, 1, 2])),
        WireArg::Array(None),
        WireArg::Fd(4),
        WireArg::Fd(5),
    ];
    let (body, mut fds) = body_of(&args);
    fds.push(99);
    assert_eq!(decode_body(&sig, false, &body, &fds), Some(args));
}

#[test]
fn reading_gives_back_a_generic_new_id() {
    let sig = vec![ArgumentType::Uint, ArgumentType::NewId(AllowNull::No)];
    let args = vec![
        WireArg::Uint(1),
        WireArg::NewIdGeneric { name: b"wl_compositor".to_vec(), version: 4, id: 3 },
    ];
    let (body, fds) = body_of(&args);
    assert_eq!(decode_body(&sig, true, &body, &fds), Some(args));
    assert_eq!(decode_body(&sig, false, &body, &fds), None);
}

#[test]
fn null_is_refused_where_it_is_not_allowed() {
    let null_str = vec![0xFF, 0xFF, 0xFF, 0xFF];
    assert_eq!(decode_body(&vec![ArgumentType::Str(AllowNull::No)], false, &null_str, &vec![]), None);
    assert_eq!(
        decode_body(&vec![ArgumentType::Array(AllowNull::No)], false, &null_str, &vec![]),
        None
    );
    let null_obj = vec![0, 0, 0, 0];
    assert_eq!(
        decode_body(&vec![ArgumentType::Object(AllowNull::No)], false, &null_obj, &vec![]),
        None
    );
    assert_eq!(
        decode_body(&vec![ArgumentType::Object(AllowNull::Yes)], false, &null_obj, &vec![]),
        Some(vec![WireArg::Object(0)])
    );
    assert_eq!(
        decode_body(&vec![ArgumentType::NewId(AllowNull::No)], false, &null_obj, &vec![]),
        None
    );
}

#[test]
fn short_and_long_bodies_are_refused() {
    let sig = vec![ArgumentType::Uint, ArgumentType::Uint];
    assert_eq!(decode_body(&sig, false, &vec![1, 0, 0, 0, 2, 0, 0], &vec![]), None);
    assert_eq!(
        decode_body(&sig, false, &vec![1, 0, 0, 0, 2, 0, 0, 0, 0], &vec![]),
        None
    );
    assert_eq!(
        decode_body(&sig, false, &vec![1, 0, 0, 0, 2, 0, 0, 0], &vec![]),
        Some(vec![WireArg::Uint(1), WireArg::Uint(2)])
    );
    assert_eq!(decode_body(&vec![], false, &vec![], &vec![]), Some(vec![]));
    assert_eq!(decode_body(&vec![], false, &vec![0, 0, 0, 0], &vec![]), None);
}

#[test]
fn malformed_strings_are_refused() {
    let sig = vec![ArgumentType::Str(AllowNull::Yes)];
    // no NUL at the end
    assert_eq!(decode_body(&sig, false, &vec![2, 0, 0, 0, b'a', b'b', 0, 0], &vec![]), None);
    // a NUL inside
    assert_eq!(decode_body(&sig, false, &vec![3, 0, 0, 0, b'a', 0, 0, 0], &vec![]), None);
    // length zero: not even the NUL
    assert_eq!(decode_body(&sig, false, &vec![0, 0, 0, 0], &vec![]), None);
    // the payload is cut short
    assert_eq!(decode_body(&sig, false, &vec![8, 0, 0, 0, b'a', b'b', b'c', b'd'], &vec![]), None);
    // the padding is missing
    assert_eq!(decode_body(&sig, false, &vec![2, 0, 0, 0, b'a', 0], &vec![]), None);
}

#[test]
fn missing_descriptor_is_refused() {
    let sig = vec![ArgumentType::Fd, ArgumentType::Fd];
    assert_eq!(decode_body(&sig, false, &vec![], &vec![3]), None);
    assert_eq!(
        decode_body(&sig, false, &vec![], &vec![3, 4, 5]),
        Some(vec![WireArg::Fd(3), WireArg::Fd(4)])
    );
}

#[test]
fn header_is_read_at_a_position() {
    let bytes = vec![0xEE, 0xEE, 9, 0, 0, 0xFF, 2, 1, 16, 0, 0];
    assert_eq!(
        read_header(&bytes, 2),
        Some(Header { sender: 0xFF00_0009, opcode: 0x0102, size: 16 })
    );
    assert_eq!(read_header(&bytes, 4), None);
    assert_eq!(read_header(&bytes, bytes.len()), None);
}
