//! The error type of the library.
use vstd::prelude::*;

verus! {

#[verifier::external_type_specification]
#[verifier::external_body]
pub struct ExIoError(std::io::Error);

/// The ways that loading or decoding can fail.
#[derive(Debug)]
pub enum Ra2Error {
    Io(std::io::Error),
    InvalidFormat { message: String },
    EncodeError { format: String, message: String },
}

/// `std::io::Error::from(ErrorKind::UnexpectedEof)`: the error that a read
/// past the end of its input reports. The error is opaque to Verus; nothing
/// is stated of it.
#[verifier::external_body]
pub(crate) fn unexpected_eof() -> std::io::Error {
    std::io::Error::from(std::io::ErrorKind::UnexpectedEof)
}

/// The text that `Display` gives for an I/O error; it depends on the error's
/// contents, which Verus does not see, so nothing is stated of it.
#[verifier::external_body]
pub(crate) fn io_error_text(e: &std::io::Error) -> String {
    format!("{}", e)
}

impl From<std::io::Error> for Ra2Error {
    fn from(value: std::io::Error) -> (r: Self) {
        Ra2Error::Io(value)
    }
}

impl vstd::std_specs::convert::FromSpecImpl<std::io::Error> for Ra2Error {
    open spec fn obeys_from_spec() -> bool {
        true
    }

    open spec fn from_spec(v: std::io::Error) -> Ra2Error {
        Ra2Error::Io(v)
    }
}

impl Ra2Error {
    /// The text that describes the error to a user.
    pub fn message(&self) -> (s: String)
        ensures
            match self {
                Ra2Error::Io(_) => exists|t: Seq<char>| s@ == "IO error: "@ + t,
                Ra2Error::InvalidFormat { message } => s@ == "Invalid file format: "@ + message@,
                Ra2Error::EncodeError { format, message } => s@ == "Encode error: "@ + format@ + ": "@ + message@,
            },
    {
        match self {
            Ra2Error::Io(e) => {
                let t = io_error_text(e);
                let s = String::from_str("IO error: ").concat(t.as_str());
                s
            },
            Ra2Error::InvalidFormat { message } => {
                String::from_str("Invalid file format: ").concat(message.as_str())
            },
            Ra2Error::EncodeError { format, message } => {
                String::from_str("Encode error: ").concat(format.as_str()).concat(": ").concat(
                    message.as_str(),
                )
            },
        }
    }
}

} // verus!
