use dbus_wire::names::{BusName, InterfaceName, MemberName, NameError, ObjectPath};

#[test]
fn t_path() {
    ObjectPath::from_bytes(b"/\0").unwrap();
    ObjectPath::from_bytes(b"\0").err().unwrap();
    ObjectPath::from_bytes(b"/").err().unwrap();
    ObjectPath::from_bytes(b"/h\0").unwrap();
    ObjectPath::from_bytes(b"/hello\0").unwrap();
    ObjectPath::from_bytes(b"/hello/\0").err().unwrap();
    ObjectPath::from_bytes(b"/hello/goodbye/013/4/HA\0").unwrap();
    ObjectPath::from_bytes(b"/hello/goodbye/013/4?/HA\0").err().unwrap();
}

#[test]
fn t_interface() {
    InterfaceName::from_bytes(b"12\0").err().unwrap();
    InterfaceName::from_bytes(b"a\0").err().unwrap();
    InterfaceName::from_bytes(b"a.b\0").unwrap();
    InterfaceName::from_bytes(b"a.b.3\0").err().unwrap();
    InterfaceName::from_bytes(b"A.Z.xar.yfds.d3490\0").unwrap();
    InterfaceName::from_bytes(b"a.b.c\0").unwrap();
    InterfaceName::from_bytes(b"a.b.c?\0").err().unwrap();
}

#[test]
fn t_busname() {
    BusName::from_bytes(b"a.b\0").unwrap();
    BusName::from_bytes(b"a.b").err().unwrap();
    BusName::from_bytes(b"a\0").err().unwrap();
    BusName::from_bytes(b"a.b?\0").err().unwrap();
    BusName::from_bytes(b"a.b-c.a0\0").unwrap();
    BusName::from_bytes(b"a.b-c.0a\0").err().unwrap();
    BusName::from_bytes(b":a.b-c\0").unwrap();
    BusName::from_bytes(b":a.b-c.1\0").unwrap();
}

#[test]
fn t_member_name() {
    MemberName::from_bytes(b"abc13\0").unwrap();
    MemberName::from_bytes(b"abc.13\0").err().unwrap();
    MemberName::from_bytes(b"1234abc\0").err().unwrap();
    MemberName::from_bytes(b"abc").err().unwrap();
    MemberName::from_bytes(b"\0").err().unwrap();
    MemberName::from_bytes(b"a\0").unwrap();
}

#[test]
fn object_path_errors_name_the_rule() {
    assert_eq!(ObjectPath::from_bytes(b"").unwrap_err(), NameError::Empty);
    assert_eq!(ObjectPath::from_bytes(&[b'/'; 256]).unwrap_err(), NameError::TooLong);
    assert_eq!(ObjectPath::from_bytes(b"a\0").unwrap_err(), NameError::BadStart);
    assert_eq!(ObjectPath::from_bytes(b"//a\0").unwrap_err(), NameError::AdjacentSeparators);
    assert_eq!(ObjectPath::from_bytes(b"/a/\0").unwrap_err(), NameError::TrailingSeparator);
    assert_eq!(ObjectPath::from_bytes(b"/a-b\0").unwrap_err(), NameError::InvalidChar);
    assert_eq!(ObjectPath::from_bytes(b"/ab").unwrap_err(), NameError::NotTerminated);
}

#[test]
fn object_path_keeps_its_bytes() {
    let b: &[u8] = b"/org/example\0";
    let p = ObjectPath::from_bytes(b).unwrap();
    assert_eq!(p.as_bytes(), b);
    let q = ObjectPath::from_bytes_unchecked(b"/\0");
    assert_eq!(q.as_bytes(), b"/\0");
}

#[test]
fn object_path_longest_accepted() {
    let mut b = vec![b'a'; 255];
    b[0] = b'/';
    b[254] = 0;
    assert!(ObjectPath::from_bytes(&b).is_ok());
    b.push(0);
    assert_eq!(ObjectPath::from_bytes(&b).unwrap_err(), NameError::TooLong);
}

#[test]
fn interface_errors_name_the_rule() {
    assert_eq!(InterfaceName::from_bytes(b"").unwrap_err(), NameError::Empty);
    assert_eq!(InterfaceName::from_bytes(b".a.b\0").unwrap_err(), NameError::BadStart);
    assert_eq!(InterfaceName::from_bytes(b"a..b\0").unwrap_err(), NameError::AdjacentSeparators);
    assert_eq!(InterfaceName::from_bytes(b"a.b.3\0").unwrap_err(), NameError::ElementStartsWithDigit);
    assert_eq!(InterfaceName::from_bytes(b"a.b.\0").unwrap_err(), NameError::TrailingSeparator);
    assert_eq!(InterfaceName::from_bytes(b"a\0").unwrap_err(), NameError::TooFewElements);
    assert_eq!(InterfaceName::from_bytes(b"a.b.c?\0").unwrap_err(), NameError::InvalidChar);
    assert_eq!(InterfaceName::from_bytes(b"a.b").unwrap_err(), NameError::NotTerminated);
    assert_eq!(InterfaceName::from_bytes(b"a.b\0").unwrap().as_bytes(), b"a.b\0");
}

#[test]
fn bus_name_errors_name_the_rule() {
    assert_eq!(BusName::from_bytes(b"").unwrap_err(), NameError::Empty);
    assert_eq!(BusName::from_bytes(&[b'a'; 256]).unwrap_err(), NameError::TooLong);
    assert_eq!(BusName::from_bytes(b"1.a\0").unwrap_err(), NameError::BadStart);
    assert_eq!(BusName::from_bytes(b"a..b\0").unwrap_err(), NameError::EmptyElement);
    assert_eq!(BusName::from_bytes(b":.b\0").unwrap_err(), NameError::EmptyElement);
    assert_eq!(BusName::from_bytes(b"a.b-c.0a\0").unwrap_err(), NameError::ElementStartsWithDigit);
    assert_eq!(BusName::from_bytes(b"a.b.\0").unwrap_err(), NameError::TrailingSeparator);
    assert_eq!(BusName::from_bytes(b"a\0").unwrap_err(), NameError::TooFewElements);
    assert_eq!(BusName::from_bytes(b"a.b?\0").unwrap_err(), NameError::InvalidChar);
    assert_eq!(BusName::from_bytes(b"a.b").unwrap_err(), NameError::NotTerminated);
}

#[test]
fn bus_name_unique_marker() {
    assert!(BusName::from_bytes(b":1.42\0").unwrap().is_unique());
    assert!(!BusName::from_bytes(b"-a.b\0").unwrap().is_unique());
}

#[test]
fn member_errors_name_the_rule() {
    assert_eq!(MemberName::from_bytes(b"\0").unwrap_err(), NameError::Empty);
    assert_eq!(MemberName::from_bytes(&[b'a'; 257]).unwrap_err(), NameError::TooLong);
    assert_eq!(MemberName::from_bytes(b"1234abc\0").unwrap_err(), NameError::BadStart);
    assert_eq!(MemberName::from_bytes(b"abc.13\0").unwrap_err(), NameError::InvalidChar);
    assert_eq!(MemberName::from_bytes(b"abc").unwrap_err(), NameError::NotTerminated);
    assert_eq!(MemberName::from_bytes(b"Ping\0").unwrap().as_bytes(), b"Ping\0");
}

#[test]
fn member_longest_accepted() {
    let mut b = vec![b'm'; 256];
    b[255] = 0;
    assert!(MemberName::from_bytes(&b).is_ok());
}

#[test]
fn names_end_at_the_first_nul() {
    let b: &[u8] = b"/a\0x";
    assert_eq!(ObjectPath::from_bytes(b).unwrap().as_bytes(), b"/a\0");
    assert_eq!(InterfaceName::from_bytes(b"a.b\0junk").unwrap().as_bytes(), b"a.b\0");
    assert_eq!(BusName::from_bytes(b":1.2\0\0").unwrap().as_bytes(), b":1.2\0");
    assert_eq!(MemberName::from_bytes(b"Ping\0?").unwrap().as_bytes(), b"Ping\0");
}
