//! The errors that a caller can recover from.

use vstd::prelude::*;
use vstd::string::StringExecFns;

verus! {

/// Why a value was refused at construction.
#[derive(Clone, Copy, Debug, PartialEq, Eq, Structural, Hash, PartialOrd, Ord)]
pub enum ErrorKind {
    /// The representative of a field element is not below its modulus.
    OutOfRange,
    /// The coordinates do not satisfy the curve equation.
    NotOnCurve,
}

/// The error of a validating constructor.
#[derive(Clone, Copy, Debug, PartialEq, Eq, Structural)]
pub enum Error {
    Regular(ErrorKind),
}

impl ErrorKind {
    /// The description of each kind, as text.
    pub open spec fn description_text(self) -> Seq<char> {
        match self {
            ErrorKind::OutOfRange => "Parameters out of range"@,
            ErrorKind::NotOnCurve => "Point is not on the curve"@,
        }
    }

    /// The name of each kind, as text.
    pub open spec fn name_text(self) -> Seq<char> {
        match self {
            ErrorKind::OutOfRange => "OutOfRange"@,
            ErrorKind::NotOnCurve => "NotOnCurve"@,
        }
    }

    /// A short description of the kind.
    pub fn as_str(&self) -> (s: &'static str)
        ensures
            s@ == self.description_text(),
    {
        match *self {
            ErrorKind::OutOfRange => "Parameters out of range",
            ErrorKind::NotOnCurve => "Point is not on the curve",
        }
    }

    /// The name of the variant.
    pub fn name(&self) -> (s: &'static str)
        ensures
            s@ == self.name_text(),
    {
        match *self {
            ErrorKind::OutOfRange => "OutOfRange",
            ErrorKind::NotOnCurve => "NotOnCurve",
        }
    }
}

impl Error {
    /// The kind that the error carries.
    pub open spec fn kind(self) -> ErrorKind {
        match self {
            Error::Regular(kind) => kind,
        }
    }

    /// A short description of the error: that of its kind.
    pub fn description(&self) -> (s: &'static str)
        ensures
            s@ == self.kind().description_text(),
    {
        match *self {
            Error::Regular(ref err) => err.as_str(),
        }
    }

    /// The error as a line for diagnostics: a fixed prefix, then the name of its kind.
    pub fn to_string(&self) -> (s: String)
        ensures
            s@ == "regular error occured "@ + self.kind().name_text(),
    {
        match *self {
            Error::Regular(ref err) => String::from_str("regular error occured ").concat(err.name()),
        }
    }
}

} // verus!
