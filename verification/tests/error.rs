use serder::DerError;
use std::io;

#[test]
fn io_unexpected_eof_is_a_failure_of_its_own() {
    let e = io::Error::new(io::ErrorKind::UnexpectedEof, "short");
    assert!(matches!(DerError::from(e), DerError::UnexpectedEof));
    let e = io::Error::from(io::ErrorKind::UnexpectedEof);
    assert!(matches!(DerError::from(e), DerError::UnexpectedEof));
}

#[test]
fn other_io_errors_are_passed_on() {
    let e = io::Error::new(io::ErrorKind::WriteZero, "full");
    match DerError::from(e) {
        DerError::Io(inner) => assert_eq!(inner.kind(), io::ErrorKind::WriteZero),
        other => panic!("{:?}", other),
    }
    let e = io::Error::from(io::ErrorKind::PermissionDenied);
    match DerError::from(e) {
        DerError::Io(inner) => assert_eq!(inner.kind(), io::ErrorKind::PermissionDenied),
        other => panic!("{:?}", other),
    }
}

#[test]
fn failed_conversion_is_int_value_too_large() {
    let e = u8::try_from(256u32).unwrap_err();
    assert!(matches!(DerError::from(e), DerError::IntValueTooLarge));
    let e = i8::try_from(-129i64).unwrap_err();
    assert!(matches!(DerError::from(e), DerError::IntValueTooLarge));
}

#[test]
fn errors_print_their_names() {
    assert_eq!(format!("{:?}", DerError::IntValueTooLarge), "IntValueTooLarge");
    assert_eq!(format!("{:?}", DerError::InvalidEncoding), "InvalidEncoding");
    assert_eq!(format!("{:?}", DerError::UnexpectedEof), "UnexpectedEof");
    assert_eq!(format!("{:?}", DerError::UnexpectedTag), "UnexpectedTag");
}

#[test]
fn io_error_by_its_kind() {
    let e = io::Error::new(io::ErrorKind::Other, "x");
    assert!(matches!(
        DerError::from_io_error(e, true),
        DerError::UnexpectedEof
    ));
    let e = io::Error::new(io::ErrorKind::Other, "x");
    match DerError::from_io_error(e, false) {
        DerError::Io(inner) => assert_eq!(inner.kind(), io::ErrorKind::Other),
        other => panic!("{:?}", other),
    }
}
