//! Failures of evaluation.

use vstd::prelude::*;

verus! {

#[derive(Clone, Copy, PartialEq, Eq, Structural, Debug)]
pub enum ErrorKind {
    /// A variable that no scope binds.
    UnboundVariable,
    /// A `letrec` variable that is read before its value has been computed.
    UninitializedVariable,
    /// The empty list in the place of an expression.
    EmptyCombination,
    /// The operator of a combination is no procedure.
    NotAProcedure,
    /// A special form with missing, superfluous or malformed parts.
    BadSyntax,
    /// A procedure called with a number of arguments that it does not take.
    WrongArgumentCount,
    /// An argument of a kind that the procedure does not take.
    WrongType,
    /// An argument that has to be a proper list and is none.
    ImproperList,
    /// The lists given to `map` differ in length.
    UnequalLengths,
    DivisionByZero,
    /// A result that does not fit in 64 bits.
    Overflow,
    /// An index outside a vector, or a negative length.
    IndexOutOfRange,
    /// The evaluation has taken more steps than the machine grants.
    StepLimit,
}

/// A failure of evaluation: what went wrong, and the name of the variable,
/// the form or the procedure that it went wrong with (empty where there is
/// none).
#[derive(Debug)]
pub struct RuntimeError {
    pub kind: ErrorKind,
    pub name: String,
}

/// Model of `RuntimeError`.
pub struct Fault {
    pub kind: ErrorKind,
    pub name: Seq<char>,
}

impl View for RuntimeError {
    type V = Fault;

    open spec fn view(&self) -> Fault {
        Fault { kind: self.kind, name: self.name@ }
    }
}

/// What the message of an error of this kind starts with.
pub open spec fn error_prefix(kind: ErrorKind) -> Seq<char> {
    match kind {
        ErrorKind::UnboundVariable => "unbound variable: "@,
        ErrorKind::UninitializedVariable => "variable used before its initialization: "@,
        ErrorKind::EmptyCombination => "the empty combination is no expression"@,
        ErrorKind::NotAProcedure => "not a procedure"@,
        ErrorKind::BadSyntax => "bad syntax: "@,
        ErrorKind::WrongArgumentCount => "wrong number of arguments: "@,
        ErrorKind::WrongType => "wrong type of argument: "@,
        ErrorKind::ImproperList => "proper list required: "@,
        ErrorKind::UnequalLengths => "lists of unequal length: "@,
        ErrorKind::DivisionByZero => "division by zero: "@,
        ErrorKind::Overflow => "integer overflow: "@,
        ErrorKind::IndexOutOfRange => "index out of range: "@,
        ErrorKind::StepLimit => "step limit exceeded"@,
    }
}

/// The message of a failure.
pub open spec fn error_text(f: Fault) -> Seq<char> {
    error_prefix(f.kind) + f.name
}

impl ErrorKind {
    pub fn prefix(self) -> (r: &'static str)
        ensures
            r@ == error_prefix(self),
    {
        match self {
            ErrorKind::UnboundVariable => "unbound variable: ",
            ErrorKind::UninitializedVariable => "variable used before its initialization: ",
            ErrorKind::EmptyCombination => "the empty combination is no expression",
            ErrorKind::NotAProcedure => "not a procedure",
            ErrorKind::BadSyntax => "bad syntax: ",
            ErrorKind::WrongArgumentCount => "wrong number of arguments: ",
            ErrorKind::WrongType => "wrong type of argument: ",
            ErrorKind::ImproperList => "proper list required: ",
            ErrorKind::UnequalLengths => "lists of unequal length: ",
            ErrorKind::DivisionByZero => "division by zero: ",
            ErrorKind::Overflow => "integer overflow: ",
            ErrorKind::IndexOutOfRange => "index out of range: ",
            ErrorKind::StepLimit => "step limit exceeded",
        }
    }
}

impl RuntimeError {
    /// A failure of the given kind that names nothing.
    pub fn plain(kind: ErrorKind) -> (r: RuntimeError)
        ensures
            r@ == (Fault { kind, name: Seq::empty() }),
    {
        RuntimeError { kind, name: String::new() }
    }

    /// A failure of the given kind with the given name.
    pub fn named(kind: ErrorKind, name: &str) -> (r: RuntimeError)
        ensures
            r@ == (Fault { kind, name: name@ }),
    {
        RuntimeError { kind, name: String::from_str(name) }
    }

    /// The message.
    pub fn msg(&self) -> (r: String)
        ensures
            r@ == error_text(self@),
    {
        let mut out = String::from_str(self.kind.prefix());
        out.append(self.name.as_str());
        out
    }
}

} // verus!
