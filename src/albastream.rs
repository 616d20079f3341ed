use vstd::prelude::*;
use vstd::string::StringExecFns;

verus! {

/// Bytes produced by compiling a command or a message.
pub type CompiledAlba = Vec<u8>;

/// The three kinds of failure a codec operation can report.
#[derive(Debug, Clone, Copy, PartialEq, Eq, Structural)]
pub enum ErrorKind {
    Other,
    InvalidInput,
    UnexpectedEof,
}

/// The name of each kind, as an error's text shows it.
pub open spec fn kind_name(k: ErrorKind) -> Seq<char> {
    match k {
        ErrorKind::Other => "Other"@,
        ErrorKind::InvalidInput => "InvalidInput"@,
        ErrorKind::UnexpectedEof => "UnexpectedEof"@,
    }
}

/// A structured codec error: its kind and a free-text message.
#[derive(Debug)]
pub struct Error {
    kind: ErrorKind,
    message: String,
}

impl Error {
    pub closed spec fn spec_kind(&self) -> ErrorKind {
        self.kind
    }

    pub closed spec fn spec_message(&self) -> Seq<char> {
        self.message@
    }

    pub fn new(kind: ErrorKind, message: &str) -> (r: Error)
        ensures
            r.spec_kind() == kind,
            r.spec_message() == message@,
    {
        Error { kind, message: message.to_string() }
    }

    pub fn kind(&self) -> (r: ErrorKind)
        ensures
            r == self.spec_kind(),
    {
        self.kind
    }

    /// The error as text: `Error<Kind:KIND>: MESSAGE`.
    pub fn to_string(&self) -> (r: String)
        ensures
            r@ == "Error<Kind:"@ + kind_name(self.spec_kind()) + ">: "@ + self.spec_message(),
    {
        let mut r = String::from_str("Error<Kind:");
        r.append(
            match self.kind {
                ErrorKind::Other => "Other",
                ErrorKind::InvalidInput => "InvalidInput",
                ErrorKind::UnexpectedEof => "UnexpectedEof",
            },
        );
        r.append(">: ");
        r.append(self.message.as_str());
        r
    }

    pub fn message(&self) -> (r: &str)
        ensures
            r@ == self.spec_message(),
    {
        self.message.as_str()
    }
}

} // verus!
