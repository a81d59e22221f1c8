use dbus_wire::header::{Bus, Endian, FieldCode, Flags, MessageType};
use dbus_wire::marshal::{Data, EncodeError, Kind, Value};
use dbus_wire::message::{FieldError, Message};
use dbus_wire::names::NameError;
use dbus_wire::type_sig::TypeError;

#[test]
fn u32_then_bool() {
    let mut d = Data::new();
    d.put_u32(24);
    d.put_bool(true);
    assert_eq!(d.as_bytes(), &[24, 0, 0, 0, 1, 0, 0, 0]);
}

#[test]
fn three_strings() {
    let mut d = Data::new();
    d.put_str("foo").unwrap();
    d.put_str("+").unwrap();
    d.put_str("bar").unwrap();
    assert_eq!(
        d.as_bytes(),
        &[3, 0, 0, 0, b'f', b'o', b'o', 0, 1, 0, 0, 0, b'+', 0, 0, 0, 3, 0, 0, 0, b'b', b'a', b'r', 0]
    );
}

#[test]
fn u64_array_of_one() {
    let mut d = Data::new();
    d.put_array(Kind::U64, &vec![Value::U64(5)]).unwrap();
    assert_eq!(d.as_bytes(), &[8, 0, 0, 0, 0, 0, 0, 0, 5, 0, 0, 0, 0, 0, 0, 0]);
}

#[test]
fn empty_u64_array_still_pads() {
    let mut d = Data::new();
    d.put_u8(7);
    d.put_array(Kind::U64, &vec![]).unwrap();
    assert_eq!(d.as_bytes(), &[7, 0, 0, 0, 0, 0, 0, 0]);
}

#[test]
fn string_array_length_counts_element_bytes() {
    let mut d = Data::new();
    d.put_array(Kind::Str, &vec![Value::Str("ab".to_string()), Value::Str("c".to_string())])
        .unwrap();
    assert_eq!(
        d.as_bytes(),
        &[14, 0, 0, 0, 2, 0, 0, 0, b'a', b'b', 0, 0, 1, 0, 0, 0, b'c', 0]
    );
}

#[test]
fn struct_aligns_to_eight() {
    let mut d = Data::new();
    d.put_u8(1);
    d.put_struct(&vec![Value::Byte(2), Value::U32(3)]).unwrap();
    assert_eq!(d.as_bytes(), &[1, 0, 0, 0, 0, 0, 0, 0, 2, 0, 0, 0, 3, 0, 0, 0]);
}

#[test]
fn u64_little_endian_and_aligned() {
    let mut d = Data::new();
    d.put_u8(0xff);
    d.put_u64(0x0102_0304_0506_0708);
    assert_eq!(d.as_bytes(), &[0xff, 0, 0, 0, 0, 0, 0, 0, 8, 7, 6, 5, 4, 3, 2, 1]);
}

#[test]
fn padding_is_minimal_and_zero() {
    for k in [1usize, 2, 4, 8] {
        for start in 0..17usize {
            let mut d = Data::new();
            for _ in 0..start {
                d.put_u8(0xaa);
            }
            d.pad_to(k);
            let pad = (k - start % k) % k;
            assert_eq!(d.len(), start + pad);
            assert!(d.as_bytes()[start..].iter().all(|b| *b == 0));
        }
    }
}

#[test]
fn value_alignment_after_odd_prefix() {
    let mut d = Data::new();
    d.put_u8(1);
    d.put_value(&Value::U32(0xdead_beef)).unwrap();
    assert_eq!(d.as_bytes(), &[1, 0, 0, 0, 0xef, 0xbe, 0xad, 0xde]);
    assert_eq!(d.len() % 4, 0);
}

#[test]
fn encoding_twice_gives_same_bytes() {
    let vs = vec![
        Value::Byte(9),
        Value::Str("hi".to_string()),
        Value::U64(77),
        Value::Bool(false),
    ];
    let mut a = Data::new();
    let mut b = Data::new();
    a.put_values(&vs).unwrap();
    b.put_values(&vs).unwrap();
    assert_eq!(a.as_bytes(), b.as_bytes());
    assert_eq!(a.len(), 28);
}

#[test]
fn header_defaults_and_encoding() {
    let mut h = Bus::new();
    assert_eq!(h.endian, Endian::Little);
    assert_eq!(h.typ, MessageType::Invalid);
    assert_eq!(h.flags.bits(), 0);
    assert_eq!(h.version, 1);
    h.typ = MessageType::MethodCall;
    h.flags = Flags::from_bits(5).unwrap();
    h.body_size = 0x0102;
    h.serial = 7;
    let mut d = Data::new();
    h.encode_into(&mut d);
    assert_eq!(d.as_bytes(), &[b'l', 1, 5, 1, 2, 1, 0, 0, 7, 0, 0, 0]);
}

#[test]
fn header_codes() {
    assert_eq!(Endian::from_byte(b'b'), Some(Endian::Big));
    assert_eq!(Endian::Big.to_byte(), b'b');
    assert_eq!(Endian::from_byte(b'x'), None);
    assert_eq!(MessageType::from_code(4), Some(MessageType::Signal));
    assert_eq!(MessageType::from_code(5), None);
    assert_eq!(MessageType::MethodError.code(), 3);
    assert_eq!(FieldCode::from_code(9), Some(FieldCode::UnixFds));
    assert_eq!(FieldCode::from_code(10), None);
    assert_eq!(FieldCode::Signature.code(), 8);
    assert_eq!(Flags::from_bits(8), None);
    let f = Flags::from_bits(6).unwrap();
    assert!(!f.no_reply_expected && f.no_auto_start && f.allow_interactive_auth);
    assert_eq!(f.bits(), 6);
    assert_eq!(Flags::none().bits(), 0);
}

#[test]
fn message_body_grows_aligned() {
    let mut m = Message::new();
    assert!(m.body().is_empty());
    m.append(&Value::Byte(1)).unwrap();
    m.append(&Value::U32(2)).unwrap();
    assert_eq!(m.body(), &[1, 0, 0, 0, 2, 0, 0, 0]);
    assert_eq!(m.header().version, 1);
    let d = Message::default();
    assert!(d.body().is_empty());
}

#[test]
fn message_header_is_finalized() {
    let mut m = Message::new();
    m.append(&Value::Str("hello".to_string())).unwrap();
    m.set_type(MessageType::Signal);
    m.set_flags(Flags::from_bits(1).unwrap());
    m.set_serial(42);
    m.seal_body_size().unwrap();
    let h = *m.header();
    assert_eq!(h.body_size, 10);
    assert_eq!(h.serial, 42);
    assert_eq!(h.typ, MessageType::Signal);
    assert!(h.flags.no_reply_expected);
    let mut d = Data::new();
    h.encode_into(&mut d);
    assert_eq!(d.as_bytes(), &[b'l', 4, 1, 1, 10, 0, 0, 0, 42, 0, 0, 0]);
}

#[test]
fn signature_value_has_byte_length() {
    let mut d = Data::new();
    d.put_u8(9);
    d.put_value(&Value::Sig("ii".to_string())).unwrap();
    assert_eq!(d.as_bytes(), &[9, 2, b'i', b'i', 0]);
    let long = "i".repeat(256);
    assert_eq!(d.put_sig(&long), Err(EncodeError::TooLong));
    assert_eq!(d.len(), 5);
}

#[test]
fn variant_carries_its_type_code() {
    let mut d = Data::new();
    d.put_variant(&Value::U32(5)).unwrap();
    assert_eq!(d.as_bytes(), &[1, b'u', 0, 0, 5, 0, 0, 0]);
}

#[test]
fn header_field_is_an_aligned_struct() {
    let mut d = Data::new();
    d.put_u8(0);
    d.put_field(&(5, Value::U32(3))).unwrap();
    assert_eq!(d.as_bytes(), &[0, 0, 0, 0, 0, 0, 0, 0, 5, 1, b'u', 0, 3, 0, 0, 0]);
}

#[test]
fn whole_message_bytes() {
    let mut m = Message::new();
    m.set_type(MessageType::MethodCall);
    m.set_serial(1);
    m.add_field(FieldCode::Path, Value::Path("/a".to_string())).unwrap();
    m.add_field(FieldCode::Member, Value::Str("Ping".to_string())).unwrap();
    m.append(&Value::U32(7)).unwrap();
    let d = m.to_bytes().unwrap();
    let expected: Vec<u8> = vec![
        b'l', 1, 0, 1, 4, 0, 0, 0, 1, 0, 0, 0, // fixed fields
        29, 0, 0, 0, // size of the field entries
        1, 1, b'o', 0, 2, 0, 0, 0, b'/', b'a', 0, // PATH
        0, 0, 0, 0, 0, // padding to 8
        3, 1, b's', 0, 4, 0, 0, 0, b'P', b'i', b'n', b'g', 0, // MEMBER
        0, 0, 0, // padding to 8
        7, 0, 0, 0, // body
    ];
    assert_eq!(d.as_bytes(), &expected[..]);
}

#[test]
fn message_without_fields_or_body() {
    let m = Message::new();
    let d = m.to_bytes().unwrap();
    assert_eq!(d.as_bytes(), &[b'l', 0, 0, 1, 0, 0, 0, 0, 0, 0, 0, 0, 0, 0, 0, 0]);
}

#[test]
fn message_body_takes_arrays_and_structs() {
    let mut m = Message::new();
    m.append(&Value::Byte(1)).unwrap();
    m.append_array(Kind::U32, &vec![Value::U32(2), Value::U32(3)]).unwrap();
    m.append_struct(&vec![Value::Byte(4)]).unwrap();
    assert_eq!(
        m.body(),
        &[1, 0, 0, 0, 8, 0, 0, 0, 2, 0, 0, 0, 3, 0, 0, 0, 4]
    );
}

#[test]
fn header_fields_are_checked() {
    let mut m = Message::new();
    assert_eq!(
        m.add_field(FieldCode::Path, Value::Str("/a".to_string())),
        Err(FieldError::WrongKind)
    );
    assert_eq!(
        m.add_field(FieldCode::Invalid, Value::U32(1)),
        Err(FieldError::WrongKind)
    );
    assert_eq!(
        m.add_field(FieldCode::Path, Value::Path("/a/".to_string())),
        Err(FieldError::Name(NameError::TrailingSeparator))
    );
    assert_eq!(
        m.add_field(FieldCode::Interface, Value::Str("a".to_string())),
        Err(FieldError::Name(NameError::TooFewElements))
    );
    assert_eq!(
        m.add_field(FieldCode::Member, Value::Str("a.b".to_string())),
        Err(FieldError::Name(NameError::InvalidChar))
    );
    assert_eq!(
        m.add_field(FieldCode::Destination, Value::Str("a.b\0c".to_string())),
        Err(FieldError::Name(NameError::InvalidChar))
    );
    assert_eq!(
        m.add_field(FieldCode::Signature, Value::Sig("(i".to_string())),
        Err(FieldError::Signature(TypeError::ParenUnclosed(1)))
    );
    m.add_field(FieldCode::Destination, Value::Str(":1.7".to_string())).unwrap();
    m.add_field(FieldCode::Signature, Value::Sig("a(su)".to_string())).unwrap();
    m.add_field(FieldCode::ReplySerial, Value::U32(3)).unwrap();
    let d = m.to_bytes().unwrap();
    assert_eq!(d.len() % 8, 0);
}
