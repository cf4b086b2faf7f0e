//! The failures of encoding and decoding.

use vstd::prelude::*;
use vstd::string::StringExecFns;

verus! {

/// `std::io::Error`, carried through unread.
#[verifier::external_type_specification]
#[verifier::external_body]
pub struct ExIoError(std::io::Error);

/// Why a value could not be written to, or read from, the wire.
#[derive(Debug)]
pub enum Error {
    /// A failure described by the data structure being encoded or decoded.
    Message(String),
    /// The underlying stream failed.
    Io(std::io::Error),
    /// The input ended before the value did.
    Eof,
    /// A fifth byte of a VarInt still had its continuation bit set.
    VarIntOverflow,
    /// A tenth byte of a VarLong still had its continuation bit set.
    VarLongOverflow,
    /// The value has a shape that the format cannot express.
    NotSupported(String),
    /// Input was left over after a whole value had been read.
    TrailingBytes,
    /// A boolean was encoded as something other than `0` or `1`.
    ExpectedBoolean,
    /// A string's bytes were not UTF-8.
    MalformedUTF8,
}

impl Error {
    /// The text that describes the failure.
    pub open spec fn text(self) -> Seq<char> {
        match self {
            Error::Message(msg) => msg@,
            Error::Io(_) => "IO error"@,
            Error::Eof => "unexpected end of input"@,
            Error::VarIntOverflow => "VarInt is too big"@,
            Error::VarLongOverflow => "VarLong is too big"@,
            Error::NotSupported(feature) => "feature "@ + feature@ + " not supported by format"@,
            Error::TrailingBytes => "trailing bytes have been left"@,
            Error::ExpectedBoolean => "expected a boolean"@,
            Error::MalformedUTF8 => "malformed UTF-8 string"@,
        }
    }

    /// A failure that a data structure describes in its own words.
    pub fn custom(msg: &str) -> (r: Error)
        ensures
            r matches Error::Message(m) && m@ == msg@,
    {
        Error::Message(msg.to_owned())
    }

    /// The description of the failure.
    pub fn to_string(&self) -> (r: String)
        ensures
            r@ == self.text(),
    {
        match self {
            Error::Message(msg) => msg.clone(),
            Error::Io(_) => "IO error".to_owned(),
            Error::Eof => "unexpected end of input".to_owned(),
            Error::VarIntOverflow => "VarInt is too big".to_owned(),
            Error::VarLongOverflow => "VarLong is too big".to_owned(),
            Error::NotSupported(feature) => {
                let mut text: String = "feature ".to_owned();
                text.append(feature.as_str());
                text.append(" not supported by format");
                text
            },
            Error::TrailingBytes => "trailing bytes have been left".to_owned(),
            Error::ExpectedBoolean => "expected a boolean".to_owned(),
            Error::MalformedUTF8 => "malformed UTF-8 string".to_owned(),
        }
    }
}

} // verus!
