use vstd::prelude::*;

verus! {

/// The three ways a program can be rejected: it does not lex or parse, it
/// does not type-check, or it goes wrong while running.
#[derive(Debug, Clone)]
pub enum Error {
    Parse(String),
    Type(String),
    Runtime(String),
}

/// The mathematical model of an [`Error`]: the same kind, with the message as
/// a sequence of characters.
pub enum SErr {
    Parse(Seq<char>),
    Type(Seq<char>),
    Runtime(Seq<char>),
}

impl View for Error {
    type V = SErr;

    open spec fn view(&self) -> SErr {
        match self {
            Error::Parse(m) => SErr::Parse(m@),
            Error::Type(m) => SErr::Type(m@),
            Error::Runtime(m) => SErr::Runtime(m@),
        }
    }
}

/// The model of a result: the model of its value or of its error.
pub open spec fn rview<T: View>(r: Result<T, Error>) -> Result<T::V, SErr> {
    match r {
        Ok(x) => Ok(x@),
        Err(e) => Err(e@),
    }
}

/// Builds a parse error whose message is `m`.
pub(crate) fn parse_error(m: String) -> (e: Error)
    ensures
        e@ == SErr::Parse(m@),
{
    Error::Parse(m)
}

/// Builds a type error whose message is `m`.
pub(crate) fn type_error(m: String) -> (e: Error)
    ensures
        e@ == SErr::Type(m@),
{
    Error::Type(m)
}

/// Builds a runtime error whose message is `m`.
pub(crate) fn runtime_error(m: String) -> (e: Error)
    ensures
        e@ == SErr::Runtime(m@),
{
    Error::Runtime(m)
}

} // verus!
