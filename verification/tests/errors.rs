use std::io;
use td_rp::{make_extension_error, ErrorKind, RpError};

#[test]
fn kinds_and_categories() {
    let cases = [
        (ErrorKind::NoLeftSpaceError, "no left space error"),
        (ErrorKind::BufferOverMaxError, "buffer over max error"),
        (ErrorKind::TypeNotMatchError, "type not match error"),
        (ErrorKind::ParseError, "parse error"),
        (ErrorKind::MissingError, "missing error"),
        (ErrorKind::StringFormatError, "string format error"),
        (ErrorKind::IoError, "I/O error"),
        (ErrorKind::ExtensionError, "extension error"),
    ];
    for (kind, category) in cases {
        let err = RpError::from((kind, "described"));
        assert_eq!(err.kind(), kind);
        assert_eq!(err.category(), category);
        assert_eq!(err.is_io_error(), kind == ErrorKind::IoError);
        assert_eq!(err.description(), "described");
        assert_eq!(err.message(), "described");
        assert_eq!(err.extension_error_code(), None);
        assert_eq!(err.extension_error_detail(), None);
        assert!(err.cause().is_none());
    }
}

#[test]
fn error_with_detail() {
    let err = RpError::from((ErrorKind::ParseError, "bad schema", "line 3".to_string()));
    assert_eq!(err.kind(), ErrorKind::ParseError);
    assert_eq!(err.description(), "bad schema");
    assert_eq!(err.message(), "bad schema: line 3");
    assert_eq!(err.extension_error_code(), None);
    assert_eq!(err.extension_error_detail(), Some("line 3"));
}

#[test]
fn extension_errors() {
    let err = make_extension_error("E42", Some("went wrong"));
    assert_eq!(err.kind(), ErrorKind::ExtensionError);
    assert_eq!(err.category(), "extension error");
    assert_eq!(err.extension_error_code(), Some("E42"));
    assert_eq!(err.extension_error_detail(), Some("went wrong"));
    assert_eq!(err.description(), "extension error");
    assert_eq!(err.message(), "E42: went wrong");
    let bare = make_extension_error("E43", None);
    assert_eq!(bare.extension_error_code(), Some("E43"));
    assert_eq!(bare.extension_error_detail(), Some("Unknown extension error encountered"));
    assert_eq!(bare.message(), "E43: Unknown extension error encountered");
}

#[test]
fn io_errors() {
    let text = io::Error::new(io::ErrorKind::Other, "disk on fire").to_string();
    let err = RpError::from(io::Error::new(io::ErrorKind::Other, "disk on fire"));
    assert_eq!(err.kind(), ErrorKind::IoError);
    assert!(err.is_io_error());
    assert_eq!(err.category(), "I/O error");
    assert_eq!(err.message(), text);
    assert_eq!(err.description(), text);
    assert!(err.cause().is_some());
    assert_eq!(err.cause().unwrap().kind(), io::ErrorKind::Other);
    assert_eq!(err.extension_error_code(), None);
    assert_eq!(err.extension_error_detail(), None);
}

#[test]
fn equality_of_errors() {
    let a = RpError::from((ErrorKind::MissingError, "one"));
    let b = RpError::from((ErrorKind::MissingError, "two"));
    let c = RpError::from((ErrorKind::ParseError, "one"));
    assert!(a == b);
    assert!(a != c);
    let d = RpError::from((ErrorKind::MissingError, "one", "x".to_string()));
    let e = RpError::from((ErrorKind::MissingError, "one", "y".to_string()));
    assert!(d == e);
    assert!(a != d);
    assert!(make_extension_error("E1", Some("x")) == make_extension_error("E1", None));
    assert!(make_extension_error("E1", None) != make_extension_error("E2", None));
    let io_a = RpError::from(io::Error::new(io::ErrorKind::Other, "x"));
    let io_b = RpError::from(io::Error::new(io::ErrorKind::Other, "x"));
    assert!(io_a != io_b);
}
