use dbus_wire::type_sig::{Type, TypeError};

#[test]
fn full_strings() {
    Type::from_str("aa").err().unwrap();
    Type::from_str("(ii").err().unwrap();
    Type::from_str("ii)").err().unwrap();

    Type::from_str("ii").unwrap();
    Type::from_str("aiai").unwrap();
    Type::from_str("(ii)(ii)").unwrap();

    Type::from_str("").unwrap();
}

#[test]
fn signature_errors_are_exact() {
    assert_eq!(Type::from_str("aa").unwrap_err(), TypeError::ElementRequired);
    assert_eq!(Type::from_str("(ii").unwrap_err(), TypeError::ParenUnclosed(1));
    assert_eq!(Type::from_str("((i").unwrap_err(), TypeError::ParenUnclosed(2));
    assert_eq!(Type::from_str("ii)").unwrap_err(), TypeError::ParenClosedBeforeOpen);
    assert_eq!(Type::from_str("iz").unwrap_err(), TypeError::Invalid('z'));
}

#[test]
fn signature_keeps_its_text() {
    let t = Type::from_str("a(su)").unwrap();
    assert_eq!(t.as_str(), "a(su)");
}

#[test]
fn append_type_code_is_refused() {
    let mut t = Type::from_str("i").unwrap();
    assert!(t.append_type_code(b'i').is_err());
    assert_eq!(t.as_str(), "i");
}

#[test]
fn type_error_descriptions() {
    assert_eq!(TypeError::Invalid('z').description(), "Type spec contained invalid character");
    assert_eq!(TypeError::ParenUnclosed(3).description(), "Type spec left parens unclosed");
    assert_eq!(
        TypeError::ParenClosedBeforeOpen.description(),
        "Type spec closed a paren without having any open"
    );
    assert_eq!(
        TypeError::ElementRequired.description(),
        "Type spec is missing required element for array"
    );
}

#[test]
fn array_marker_before_close_paren_needs_element() {
    assert_eq!(Type::from_str("(a)").unwrap_err(), TypeError::ElementRequired);
    Type::from_str("a()").unwrap();
    assert_eq!(Type::from_str("a()z").unwrap_err(), TypeError::Invalid('z'));
    assert_eq!(Type::from_str("a(a)").unwrap_err(), TypeError::ElementRequired);
    Type::from_str("(ai)").unwrap();
    Type::from_str("a(i)").unwrap();
}
