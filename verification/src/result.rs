use vstd::prelude::*;

verus! {

/// An error raised while parsing an argument vector.
///
/// Every error is terminal: it aborts the whole parse and is returned to the
/// caller; there is no partial result and no recovery within one parse call.
#[derive(Debug, Clone, PartialEq)]
pub enum Error {
    /// A token matched no declared field and the schema has no catch-all
    /// field; the payload is the offending token.
    UnknownOption(String),
    /// A value-bearing option was the final token, with no value after it.
    UnexpectedEnd,
    /// A mandatory field was never matched; the payload is the field's name.
    MissingOption(String),
    /// An option string already consumed once was encountered again; the
    /// payload is the repeated token.
    DuplicateOption(String),
}

/// The mathematical image of an [`Error`], over character sequences.
#[verifier::ext_equal]
pub enum SpecError {
    UnknownOption(Seq<char>),
    UnexpectedEnd,
    MissingOption(Seq<char>),
    DuplicateOption(Seq<char>),
}

impl View for Error {
    type V = SpecError;

    open spec fn view(&self) -> SpecError {
        match self {
            Error::UnknownOption(token) => SpecError::UnknownOption(token@),
            Error::UnexpectedEnd => SpecError::UnexpectedEnd,
            Error::MissingOption(name) => SpecError::MissingOption(name@),
            Error::DuplicateOption(token) => SpecError::DuplicateOption(token@),
        }
    }
}

impl Error {
    /// A short, fixed description of the error's kind.
    pub fn description(&self) -> (r: &'static str)
        ensures
            r@ == match self@ {
                SpecError::UnknownOption(_) => "Unknown option"@,
                SpecError::UnexpectedEnd => "Unexpected end of arguments vector"@,
                SpecError::MissingOption(_) => "Missing mandatory argument"@,
                SpecError::DuplicateOption(_) => "Duplicate option"@,
            },
    {
        match self {
            Error::UnknownOption(_) => "Unknown option",
            Error::UnexpectedEnd => "Unexpected end of arguments vector",
            Error::MissingOption(_) => "Missing mandatory argument",
            Error::DuplicateOption(_) => "Duplicate option",
        }
    }

    /// The description, followed by the offending token or field name where
    /// the error carries one.
    pub fn message(&self) -> (r: String)
        ensures
            r@ == match self@ {
                SpecError::UnknownOption(token) => "Unknown option"@ + ": "@ + token,
                SpecError::UnexpectedEnd => "Unexpected end of arguments vector"@,
                SpecError::MissingOption(name) => "Missing mandatory argument"@ + ": "@ + name,
                SpecError::DuplicateOption(token) => "Duplicate option"@ + ": "@ + token,
            },
    {
        let mut r = self.description().to_owned();
        match self {
            Error::UnknownOption(which) => {
                r.append(": ");
                r.append(which.as_str());
            },
            Error::MissingOption(which) => {
                r.append(": ");
                r.append(which.as_str());
            },
            Error::DuplicateOption(which) => {
                r.append(": ");
                r.append(which.as_str());
            },
            Error::UnexpectedEnd => {},
        }
        r
    }
}

} // verus!
