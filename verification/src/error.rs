//! What can go wrong while a request is served.
use vstd::prelude::*;
use vstd::string::to_string_from_display_ensures;

verus! {

/// Whether `text` is how an error displays itself.
pub open spec fn displays<E: std::fmt::Display>(error: E, text: Seq<char>) -> bool {
    exists|s: String| #[trigger] to_string_from_display_ensures::<E>(&error, s) && s@ == text
}

/// An error of another crate, and how it displays itself.
#[derive(Debug)]
pub struct Cause<E: std::fmt::Display> {
    error: E,
    text: String,
}

impl<E: std::fmt::Display> View for Cause<E> {
    type V = (E, Seq<char>);

    /// The error and its text.
    closed spec fn view(&self) -> (E, Seq<char>) {
        (self.error, self.text@)
    }
}

impl<E: std::fmt::Display> Cause<E> {
    #[verifier::type_invariant]
    spec fn is_own_text(self) -> bool {
        displays(self.error, self.text@)
    }

    /// An error as a cause.
    pub fn new(error: E) -> (cause: Self)
        ensures
            cause@.0 == error,
            displays(error, cause@.1),
    {
        let text = error.to_string();
        assert(to_string_from_display_ensures::<E>(&error, text));
        Cause { error, text }
    }

    /// How the error displays itself.
    pub fn text(&self) -> (text: String)
        ensures
            text@ == self@.1,
            displays(self@.0, text@),
    {
        proof {
            use_type_invariant(self);
        }
        self.text.clone()
    }

    /// The error itself.
    pub fn into_error(self) -> (error: E)
        ensures
            error == self@.0,
    {
        self.error
    }
}

/// An error of the server. Errors of response building, of the Python interpreter,
/// of sockets and of connections arrive as their text.
#[derive(Debug)]
pub enum Error {
    PyError(String),
    HTTPError(String),
    InvalidUri(Cause<http::uri::InvalidUri>),
    IOError(String),
    AddrParseError(String),
    UTF8Error(Cause<std::str::Utf8Error>),
    HyperError(String),
    HyperToStrError(Cause<http::header::ToStrError>),
    BoxError(String),
}

/// The Python exception that an error becomes.
pub enum PyException {
    /// The exception that Python code has raised, as it is.
    Raised(String),
    /// An `OSError`.
    OsError(String),
    /// A `ValueError`.
    ValueError(String),
}

impl From<http::uri::InvalidUri> for Error {
    fn from(err: http::uri::InvalidUri) -> (e: Self)
        ensures
            e matches Error::InvalidUri(cause) && cause@.0 == err && displays(err, cause@.1),
    {
        Error::InvalidUri(Cause::new(err))
    }
}

impl vstd::std_specs::convert::FromSpecImpl<http::uri::InvalidUri> for Error {
    /// The text of the cause is whatever it displays, so the result is described by the
    /// contract of `from` and not by a function of the cause.
    open spec fn obeys_from_spec() -> bool {
        false
    }

    open spec fn from_spec(err: http::uri::InvalidUri) -> Self {
        arbitrary()
    }
}

impl From<std::str::Utf8Error> for Error {
    fn from(err: std::str::Utf8Error) -> (e: Self)
        ensures
            e matches Error::UTF8Error(cause) && cause@.0 == err && displays(err, cause@.1),
    {
        Error::UTF8Error(Cause::new(err))
    }
}

impl vstd::std_specs::convert::FromSpecImpl<std::str::Utf8Error> for Error {
    /// The text of the cause is whatever it displays, so the result is described by the
    /// contract of `from` and not by a function of the cause.
    open spec fn obeys_from_spec() -> bool {
        false
    }

    open spec fn from_spec(err: std::str::Utf8Error) -> Self {
        arbitrary()
    }
}

impl From<http::header::ToStrError> for Error {
    fn from(err: http::header::ToStrError) -> (e: Self)
        ensures
            e matches Error::HyperToStrError(cause) && cause@.0 == err && displays(err, cause@.1),
    {
        Error::HyperToStrError(Cause::new(err))
    }
}

impl vstd::std_specs::convert::FromSpecImpl<http::header::ToStrError> for Error {
    /// The text of the cause is whatever it displays, so the result is described by the
    /// contract of `from` and not by a function of the cause.
    open spec fn obeys_from_spec() -> bool {
        false
    }

    open spec fn from_spec(err: http::header::ToStrError) -> Self {
        arbitrary()
    }
}

impl Error {
    /// The name that an error's description begins with.
    pub open spec fn label(&self) -> Seq<char> {
        match self {
            Error::PyError(_) => "PyError"@,
            Error::HTTPError(_) => "HTTPError"@,
            Error::InvalidUri(_) => "InvalidUri"@,
            Error::IOError(_) => "IOError"@,
            Error::AddrParseError(_) => "AddrParseError"@,
            Error::UTF8Error(_) => "UTF8Error"@,
            Error::HyperError(_) => "HyperError"@,
            Error::HyperToStrError(_) => "HyperToStrError"@,
            Error::BoxError(_) => "BoxError"@,
        }
    }

    /// The text of the error underneath.
    pub open spec fn cause_text(&self) -> Seq<char> {
        match self {
            Error::PyError(t) => t@,
            Error::HTTPError(t) => t@,
            Error::InvalidUri(cause) => cause@.1,
            Error::IOError(t) => t@,
            Error::AddrParseError(t) => t@,
            Error::UTF8Error(cause) => cause@.1,
            Error::HyperError(t) => t@,
            Error::HyperToStrError(cause) => cause@.1,
            Error::BoxError(t) => t@,
        }
    }

    /// Whether `text` is how the error underneath displays itself.
    pub open spec fn is_cause(&self, text: Seq<char>) -> bool {
        match self {
            Error::InvalidUri(cause) => displays(cause@.0, text),
            Error::UTF8Error(cause) => displays(cause@.0, text),
            Error::HyperToStrError(cause) => displays(cause@.0, text),
            _ => text == self.cause_text(),
        }
    }

    /// The text of the error underneath.
    pub fn source(&self) -> (text: String)
        ensures
            text@ == self.cause_text(),
            self.is_cause(text@),
    {
        match self {
            Error::PyError(t) => t.clone(),
            Error::HTTPError(t) => t.clone(),
            Error::InvalidUri(cause) => cause.text(),
            Error::IOError(t) => t.clone(),
            Error::AddrParseError(t) => t.clone(),
            Error::UTF8Error(cause) => cause.text(),
            Error::HyperError(t) => t.clone(),
            Error::HyperToStrError(cause) => cause.text(),
            Error::BoxError(t) => t.clone(),
        }
    }

    /// What the error displays: its label, a colon and the text of the error underneath,
    /// which is that of `source`.
    pub fn describe(&self) -> (text: String)
        ensures
            text@ == self.label() + ": "@ + self.cause_text(),
    {
        let mut text = match self {
            Error::PyError(_) => "PyError".to_owned(),
            Error::HTTPError(_) => "HTTPError".to_owned(),
            Error::InvalidUri(_) => "InvalidUri".to_owned(),
            Error::IOError(_) => "IOError".to_owned(),
            Error::AddrParseError(_) => "AddrParseError".to_owned(),
            Error::UTF8Error(_) => "UTF8Error".to_owned(),
            Error::HyperError(_) => "HyperError".to_owned(),
            Error::HyperToStrError(_) => "HyperToStrError".to_owned(),
            Error::BoxError(_) => "BoxError".to_owned(),
        };
        text.append(": ");
        text.append(self.source().as_str());
        text
    }

    /// The Python exception for the error: an exception of Python code stays what it
    /// is, an I/O error is an `OSError`, and everything else a `ValueError`.
    pub fn into_py_err(self) -> (exception: PyException)
        ensures
            match (self, exception) {
                (Error::PyError(t), PyException::Raised(text)) => text == t,
                (Error::PyError(_), _) => false,
                (Error::IOError(t), PyException::OsError(text)) => text == t,
                (Error::IOError(_), _) => false,
                (_, PyException::ValueError(text)) => text@ == self.cause_text()
                    && self.is_cause(text@),
                (_, _) => false,
            },
    {
        match self {
            Error::PyError(t) => PyException::Raised(t),
            Error::IOError(t) => PyException::OsError(t),
            other => PyException::ValueError(other.source()),
        }
    }
}

/// What an error displays begins with the name of its kind.
pub proof fn description_begins_with_the_kind(error: Error)
    ensures
        error is PyError ==> error.label() == "PyError"@,
        error is HTTPError ==> error.label() == "HTTPError"@,
        error is InvalidUri ==> error.label() == "InvalidUri"@,
        error is IOError ==> error.label() == "IOError"@,
        error is AddrParseError ==> error.label() == "AddrParseError"@,
        error is UTF8Error ==> error.label() == "UTF8Error"@,
        error is HyperError ==> error.label() == "HyperError"@,
        error is HyperToStrError ==> error.label() == "HyperToStrError"@,
        error is BoxError ==> error.label() == "BoxError"@,
{
}

/// An error that arrives as its text has that text as its cause, and any other has the
/// text that goes with it.
pub proof fn cause_is_what_arrived(error: Error)
    ensures
        error matches Error::PyError(text) ==> error.cause_text() == text@,
        error matches Error::HTTPError(text) ==> error.cause_text() == text@,
        error matches Error::IOError(text) ==> error.cause_text() == text@,
        error matches Error::AddrParseError(text) ==> error.cause_text() == text@,
        error matches Error::HyperError(text) ==> error.cause_text() == text@,
        error matches Error::BoxError(text) ==> error.cause_text() == text@,
        error matches Error::InvalidUri(cause) ==> error.cause_text() == cause@.1,
        error matches Error::UTF8Error(cause) ==> error.cause_text() == cause@.1,
        error matches Error::HyperToStrError(cause) ==> error.cause_text() == cause@.1,
{
}

}
