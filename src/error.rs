use vstd::prelude::*;
use vstd::string::StringExecFns;

verus! {

/// The errors that the store reports to its callers.
#[derive(Debug)]
pub enum Error {
    /// Any other failure, with a message.
    Generic(String),
    /// A failure of the underlying file or socket.
    IOError(String),
    /// A value could not be encoded.
    SerializeError(String),
    /// Bytes could not be decoded; during a scan this means a corrupt log.
    DeserializeError(String),
    /// A failure reported by sled.
    SledError(String),
    /// The key is not in the store.
    KeyNotFound,
}

pub type Result<T> = std::result::Result<T, Error>;

/// An error over the characters of its message.
pub enum ErrorView {
    Generic(Seq<char>),
    IOError(Seq<char>),
    SerializeError(Seq<char>),
    DeserializeError(Seq<char>),
    SledError(Seq<char>),
    KeyNotFound,
}

impl View for Error {
    type V = ErrorView;

    open spec fn view(&self) -> ErrorView {
        match self {
            Error::Generic(m) => ErrorView::Generic(m@),
            Error::IOError(m) => ErrorView::IOError(m@),
            Error::SerializeError(m) => ErrorView::SerializeError(m@),
            Error::DeserializeError(m) => ErrorView::DeserializeError(m@),
            Error::SledError(m) => ErrorView::SledError(m@),
            Error::KeyNotFound => ErrorView::KeyNotFound,
        }
    }
}

/// The text that describes an error to a user.
pub open spec fn error_message(e: ErrorView) -> Seq<char> {
    match e {
        ErrorView::Generic(m) => m,
        ErrorView::IOError(m) => m,
        ErrorView::SerializeError(m) => "SerializeError: "@ + m,
        ErrorView::DeserializeError(m) => "DeserializeError: "@ + m,
        ErrorView::SledError(m) => "SledError: "@ + m,
        ErrorView::KeyNotFound => "Key not found"@,
    }
}

impl Error {
    /// The text that describes the error to a user.
    pub fn message(&self) -> (r: String)
        ensures
            r@ == error_message(self@),
    {
        match self {
            Error::Generic(m) => m.clone(),
            Error::IOError(m) => m.clone(),
            Error::SerializeError(m) => String::from_str("SerializeError: ").concat(m.as_str()),
            Error::DeserializeError(m) => String::from_str("DeserializeError: ").concat(m.as_str()),
            Error::SledError(m) => String::from_str("SledError: ").concat(m.as_str()),
            Error::KeyNotFound => String::from_str("Key not found"),
        }
    }
}

} // verus!
