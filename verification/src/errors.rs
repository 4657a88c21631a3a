use vstd::prelude::*;

verus! {

/// The failures a conversion can end with. Each variant carries a context
/// string naming the offending field or file.
#[derive(Debug)]
pub enum EdfError {
    Csv(String),
    ParseFloat(String),
    ParseInt(String),
    Io(String),
    Datetime(String),
    MismatchedSignals(String),
}

/// The variant of an `EdfError`, without its context string. Contracts
/// speak of the variant; the context is for human readers.
#[derive(Debug, Clone, Copy, PartialEq, Eq, Structural)]
pub enum ErrKind {
    Csv,
    ParseFloat,
    ParseInt,
    Io,
    Datetime,
    MismatchedSignals,
}

impl EdfError {
    pub open spec fn kind(&self) -> ErrKind {
        match self {
            EdfError::Csv(_) => ErrKind::Csv,
            EdfError::ParseFloat(_) => ErrKind::ParseFloat,
            EdfError::ParseInt(_) => ErrKind::ParseInt,
            EdfError::Io(_) => ErrKind::Io,
            EdfError::Datetime(_) => ErrKind::Datetime,
            EdfError::MismatchedSignals(_) => ErrKind::MismatchedSignals,
        }
    }

    pub open spec fn context_spec(&self) -> Seq<char> {
        match self {
            EdfError::Csv(s) => s@,
            EdfError::ParseFloat(s) => s@,
            EdfError::ParseInt(s) => s@,
            EdfError::Io(s) => s@,
            EdfError::Datetime(s) => s@,
            EdfError::MismatchedSignals(s) => s@,
        }
    }

    /// The fixed description of each failure kind.
    pub fn message(&self) -> (r: String)
        ensures
            self.kind() == ErrKind::Csv ==> r@ == "Can't perform csv operation."@,
            self.kind() == ErrKind::ParseFloat ==> r@ == "Can't parse value to float."@,
            self.kind() == ErrKind::ParseInt ==> r@ == "Can't parse value to int."@,
            self.kind() == ErrKind::Io ==> r@ == "Can't perform I/O operation."@,
            self.kind() == ErrKind::Datetime ==> r@ == "Can't parse datetime."@,
            self.kind() == ErrKind::MismatchedSignals ==> r@
                == "Number of signals in each sample don't match!"@,
    {
        match self {
            EdfError::Csv(_) => String::from_str("Can't perform csv operation."),
            EdfError::ParseFloat(_) => String::from_str("Can't parse value to float."),
            EdfError::ParseInt(_) => String::from_str("Can't parse value to int."),
            EdfError::Io(_) => String::from_str("Can't perform I/O operation."),
            EdfError::Datetime(_) => String::from_str("Can't parse datetime."),
            EdfError::MismatchedSignals(_) => String::from_str(
                "Number of signals in each sample don't match!",
            ),
        }
    }

    /// The context string the error was raised with.
    pub fn context(&self) -> (r: &String)
        ensures
            r@ == self.context_spec(),
    {
        match self {
            EdfError::Csv(s) => s,
            EdfError::ParseFloat(s) => s,
            EdfError::ParseInt(s) => s,
            EdfError::Io(s) => s,
            EdfError::Datetime(s) => s,
            EdfError::MismatchedSignals(s) => s,
        }
    }
}

} // verus!
