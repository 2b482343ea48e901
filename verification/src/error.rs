//! The error taxonomy of the codec.

use vstd::prelude::*;
use vstd::std_specs::cmp::PartialEqSpecImpl;
use vstd::std_specs::convert::FromSpecImpl;
use vstd::string::StringExecFns;

verus! {

/// `std::io::Error`, which an error of the codec may carry and of which
/// nothing is read.
#[verifier::external_type_specification]
#[verifier::external_body]
pub struct ExIoError(std::io::Error);

/// The kinds of failure.
#[derive(PartialEq, Eq, Copy, Clone, Debug, Structural)]
pub enum ErrorKind {
    /// A read asked for more bytes than were left.
    NoLeftSpaceError,
    /// The buffer grew beyond its cap.
    BufferOverMaxError,
    /// A type code is not the one that was expected.
    TypeNotMatchError,
    /// A schema text could not be parsed.
    ParseError,
    /// A name is not in the schema.
    MissingError,
    /// A text is not valid UTF-8.
    StringFormatError,
    /// An input or output operation failed.
    IoError,
    /// A failure defined by the caller.
    ExtensionError,
}

#[derive(Debug)]
enum ErrorRepr {
    WithDescription(ErrorKind, &'static str),
    WithDescriptionAndDetail(ErrorKind, &'static str, String),
    ExtensionError(String, String),
    IoError(std::io::Error),
}

/// What an [`RpError`] holds, as far as contracts speak of it: everything
/// but the inside of an input/output error.
pub enum RpErrorView {
    /// A kind and a fixed description.
    WithDescription(ErrorKind, Seq<char>),
    /// A kind, a fixed description and a detail.
    WithDescriptionAndDetail(ErrorKind, Seq<char>, Seq<char>),
    /// A caller-defined code and a detail.
    ExtensionError(Seq<char>, Seq<char>),
    /// An input/output error.
    IoError,
}

/// The detail of an extension error that was made without one.
pub open spec fn unknown_extension_detail() -> Seq<char> {
    "Unknown extension error encountered"@
}

/// The name of each kind of failure.
pub open spec fn category_of(kind: ErrorKind) -> Seq<char> {
    match kind {
        ErrorKind::NoLeftSpaceError => "no left space error"@,
        ErrorKind::BufferOverMaxError => "buffer over max error"@,
        ErrorKind::TypeNotMatchError => "type not match error"@,
        ErrorKind::ParseError => "parse error"@,
        ErrorKind::MissingError => "missing error"@,
        ErrorKind::StringFormatError => "string format error"@,
        ErrorKind::IoError => "I/O error"@,
        ErrorKind::ExtensionError => "extension error"@,
    }
}

impl RpErrorView {
    /// The kind of the failure.
    pub open spec fn kind(self) -> ErrorKind {
        match self {
            RpErrorView::WithDescription(kind, _) => kind,
            RpErrorView::WithDescriptionAndDetail(kind, _, _) => kind,
            RpErrorView::ExtensionError(_, _) => ErrorKind::ExtensionError,
            RpErrorView::IoError => ErrorKind::IoError,
        }
    }

    /// The code of an extension error.
    pub open spec fn extension_code(self) -> Option<Seq<char>> {
        match self {
            RpErrorView::ExtensionError(code, _) => Some(code),
            _ => None,
        }
    }

    /// The detail of an extension error or of an error made with one.
    pub open spec fn detail(self) -> Option<Seq<char>> {
        match self {
            RpErrorView::ExtensionError(_, detail) => Some(detail),
            RpErrorView::WithDescriptionAndDetail(_, _, detail) => Some(detail),
            _ => None,
        }
    }

    /// The short description; an input/output error has one of its own,
    /// of which nothing is said here.
    pub open spec fn description(self) -> Option<Seq<char>> {
        match self {
            RpErrorView::WithDescription(_, desc) => Some(desc),
            RpErrorView::WithDescriptionAndDetail(_, desc, _) => Some(desc),
            RpErrorView::ExtensionError(_, _) => Some("extension error"@),
            RpErrorView::IoError => None,
        }
    }

    /// The full message; an input/output error has one of its own, of which
    /// nothing is said here.
    pub open spec fn message(self) -> Option<Seq<char>> {
        match self {
            RpErrorView::WithDescription(_, desc) => Some(desc),
            RpErrorView::WithDescriptionAndDetail(_, desc, detail) => Some(desc + ": "@ + detail),
            RpErrorView::ExtensionError(code, detail) => Some(code + ": "@ + detail),
            RpErrorView::IoError => None,
        }
    }

    /// What `==` means on errors: two errors of the same shape are equal when
    /// their kinds are, two extension errors when their codes are, and an
    /// input/output error equals nothing.
    pub open spec fn same(self, other: RpErrorView) -> bool {
        match (self, other) {
            (RpErrorView::WithDescription(a, _), RpErrorView::WithDescription(b, _)) => a == b,
            (
                RpErrorView::WithDescriptionAndDetail(a, _, _),
                RpErrorView::WithDescriptionAndDetail(b, _, _),
            ) => a == b,
            (RpErrorView::ExtensionError(a, _), RpErrorView::ExtensionError(b, _)) => a == b,
            _ => false,
        }
    }
}

/// A failure of the codec.
#[derive(Debug)]
pub struct RpError {
    repr: ErrorRepr,
}

/// The result of a codec operation.
pub type RpResult<T> = Result<T, RpError>;

impl View for RpError {
    type V = RpErrorView;

    closed spec fn view(&self) -> RpErrorView {
        match self.repr {
            ErrorRepr::WithDescription(kind, desc) => RpErrorView::WithDescription(kind, desc@),
            ErrorRepr::WithDescriptionAndDetail(kind, desc, detail) =>
                RpErrorView::WithDescriptionAndDetail(kind, desc@, detail@),
            ErrorRepr::ExtensionError(code, detail) => RpErrorView::ExtensionError(code@, detail@),
            ErrorRepr::IoError(_) => RpErrorView::IoError,
        }
    }
}

impl RpError {
    /// The input/output error that the error carries, if it carries one.
    pub closed spec fn io_error(&self) -> Option<std::io::Error> {
        match self.repr {
            ErrorRepr::IoError(err) => Some(err),
            _ => None,
        }
    }
}

impl PartialEq for RpError {
    fn eq(&self, other: &RpError) -> (r: bool) {
        match (&self.repr, &other.repr) {
            (ErrorRepr::WithDescription(kind_a, _), ErrorRepr::WithDescription(kind_b, _)) => {
                *kind_a == *kind_b
            },
            (
                ErrorRepr::WithDescriptionAndDetail(kind_a, _, _),
                ErrorRepr::WithDescriptionAndDetail(kind_b, _, _),
            ) => *kind_a == *kind_b,
            (ErrorRepr::ExtensionError(a, _), ErrorRepr::ExtensionError(b, _)) => *a == *b,
            _ => false,
        }
    }
}

impl PartialEqSpecImpl for RpError {
    open spec fn obeys_eq_spec() -> bool {
        true
    }

    open spec fn eq_spec(&self, other: &RpError) -> bool {
        self@.same(other@)
    }
}

impl From<std::io::Error> for RpError {
    fn from(err: std::io::Error) -> (r: RpError)
        ensures
            r@ == RpErrorView::IoError,
            r.io_error() == Some(err),
    {
        RpError { repr: ErrorRepr::IoError(err) }
    }
}

impl FromSpecImpl<std::io::Error> for RpError {
    open spec fn obeys_from_spec() -> bool {
        true
    }

    closed spec fn from_spec(err: std::io::Error) -> RpError {
        RpError { repr: ErrorRepr::IoError(err) }
    }
}

impl From<(ErrorKind, &'static str)> for RpError {
    fn from(v: (ErrorKind, &'static str)) -> (r: RpError)
        ensures
            r@ == RpErrorView::WithDescription(v.0, v.1@),
    {
        RpError { repr: ErrorRepr::WithDescription(v.0, v.1) }
    }
}

impl FromSpecImpl<(ErrorKind, &'static str)> for RpError {
    open spec fn obeys_from_spec() -> bool {
        true
    }

    closed spec fn from_spec(v: (ErrorKind, &'static str)) -> RpError {
        RpError { repr: ErrorRepr::WithDescription(v.0, v.1) }
    }
}

impl From<(ErrorKind, &'static str, String)> for RpError {
    fn from(v: (ErrorKind, &'static str, String)) -> (r: RpError)
        ensures
            r@ == RpErrorView::WithDescriptionAndDetail(v.0, v.1@, v.2@),
    {
        RpError { repr: ErrorRepr::WithDescriptionAndDetail(v.0, v.1, v.2) }
    }
}

impl FromSpecImpl<(ErrorKind, &'static str, String)> for RpError {
    open spec fn obeys_from_spec() -> bool {
        true
    }

    closed spec fn from_spec(v: (ErrorKind, &'static str, String)) -> RpError {
        RpError { repr: ErrorRepr::WithDescriptionAndDetail(v.0, v.1, v.2) }
    }
}

/// The text that `std::io::Error` shows through `Display`. Nothing is
/// claimed of it: it depends on the inside of the error, which is opaque here.
#[verifier::external_body]
fn io_error_text(err: &std::io::Error) -> (text: String) {
    err.to_string()
}

impl RpError {
    /// The kind of the error.
    pub fn kind(&self) -> (kind: ErrorKind)
        ensures
            kind == self@.kind(),
    {
        match &self.repr {
            ErrorRepr::WithDescription(kind, _) => *kind,
            ErrorRepr::WithDescriptionAndDetail(kind, _, _) => *kind,
            ErrorRepr::ExtensionError(_, _) => ErrorKind::ExtensionError,
            ErrorRepr::IoError(_) => ErrorKind::IoError,
        }
    }

    /// The name of the error's kind, for display.
    pub fn category(&self) -> (name: &str)
        ensures
            name@ == category_of(self@.kind()),
    {
        match self.kind() {
            ErrorKind::NoLeftSpaceError => "no left space error",
            ErrorKind::BufferOverMaxError => "buffer over max error",
            ErrorKind::TypeNotMatchError => "type not match error",
            ErrorKind::ParseError => "parse error",
            ErrorKind::MissingError => "missing error",
            ErrorKind::StringFormatError => "string format error",
            ErrorKind::IoError => "I/O error",
            ErrorKind::ExtensionError => "extension error",
        }
    }

    /// Whether this is an input/output failure.
    pub fn is_io_error(&self) -> (r: bool)
        ensures
            r == (self@.kind() == ErrorKind::IoError),
    {
        match self.kind() {
            ErrorKind::IoError => true,
            _ => false,
        }
    }

    /// The code of an extension error.
    pub fn extension_error_code(&self) -> (r: Option<&str>)
        ensures
            r is Some == self@.extension_code() is Some,
            r matches Some(code) ==> self@.extension_code() == Some(code@),
    {
        match &self.repr {
            ErrorRepr::ExtensionError(code, _) => Some(code.as_str()),
            _ => None,
        }
    }

    /// The detail of an extension error or of an error made with a detail.
    pub fn extension_error_detail(&self) -> (r: Option<&str>)
        ensures
            r is Some == self@.detail() is Some,
            r matches Some(detail) ==> self@.detail() == Some(detail@),
    {
        match &self.repr {
            ErrorRepr::ExtensionError(_, detail) => Some(detail.as_str()),
            ErrorRepr::WithDescriptionAndDetail(_, _, detail) => Some(detail.as_str()),
            _ => None,
        }
    }

    /// The short description of the error. For an input/output error it is
    /// that error's own text.
    pub fn description(&self) -> (text: String)
        ensures
            self@.description() matches Some(d) ==> text@ == d,
    {
        match &self.repr {
            ErrorRepr::WithDescription(_, desc) => String::from_str(desc),
            ErrorRepr::WithDescriptionAndDetail(_, desc, _) => String::from_str(desc),
            ErrorRepr::ExtensionError(_, _) => String::from_str("extension error"),
            ErrorRepr::IoError(err) => io_error_text(err),
        }
    }

    /// The input/output error behind this error, if that is what it is.
    pub fn cause(&self) -> (r: Option<&std::io::Error>)
        ensures
            r is Some <==> self@ is IoError,
            r matches Some(err) ==> self.io_error() == Some(*err),
            r is None ==> self.io_error() is None,
    {
        match &self.repr {
            ErrorRepr::IoError(err) => Some(err),
            _ => None,
        }
    }

    /// The full message of the error: the description, then a colon and the
    /// detail where there is one; for an extension error the code, a colon
    /// and the detail. For an input/output error it is that error's own text.
    pub fn message(&self) -> (text: String)
        ensures
            self@.message() matches Some(m) ==> text@ == m,
    {
        match &self.repr {
            ErrorRepr::WithDescription(_, desc) => String::from_str(desc),
            ErrorRepr::WithDescriptionAndDetail(_, desc, detail) => {
                let text = String::from_str(desc);
                let text = text.concat(": ");
                text.concat(detail.as_str())
            },
            ErrorRepr::ExtensionError(code, detail) => {
                let text = code.clone();
                let text = text.concat(": ");
                text.concat(detail.as_str())
            },
            ErrorRepr::IoError(err) => io_error_text(err),
        }
    }
}

/// An extension error with the given code; without a detail it says that the
/// extension error is unknown.
pub fn make_extension_error(code: &str, detail: Option<&str>) -> (r: RpError)
    ensures
        r@ == RpErrorView::ExtensionError(
            code@,
            match detail {
                Some(x) => x@,
                None => unknown_extension_detail(),
            },
        ),
{
    RpError {
        repr: ErrorRepr::ExtensionError(
            String::from_str(code),
            match detail {
                Some(x) => String::from_str(x),
                None => String::from_str("Unknown extension error encountered"),
            },
        ),
    }
}

} // verus!
