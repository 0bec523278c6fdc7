//! The error that the directory reports: a message and the part of the
//! program that it comes from.

use vstd::prelude::*;
use vstd::string::StringExecFns;

verus! {

/// The part of the program that an error comes from.
#[derive(Debug, Clone, Copy, PartialEq, Eq, Structural)]
pub enum Kind {
    EmployeeDatabase,
    Command,
    System,
}

impl Kind {
    /// The name under which the kind is shown.
    pub open spec fn label_text(self) -> Seq<char> {
        match self {
            Kind::EmployeeDatabase => "Employee Database"@,
            Kind::Command => "Command"@,
            Kind::System => "System"@,
        }
    }

    /// The name under which the kind is shown.
    pub fn label(&self) -> (r: String)
        ensures
            r@ == self.label_text(),
    {
        match self {
            Kind::EmployeeDatabase => String::from_str("Employee Database"),
            Kind::Command => String::from_str("Command"),
            Kind::System => String::from_str("System"),
        }
    }
}

/// What an error holds, as plain values.
pub struct ErrorModel {
    pub msg: Seq<char>,
    pub kind: Kind,
}

impl ErrorModel {
    /// The line that shows the error.
    pub open spec fn text(self) -> Seq<char> {
        "Kind: ["@ + self.kind.label_text() + "], Msg: "@ + self.msg
    }
}

/// An error with its message and kind.
#[derive(Debug)]
pub struct ApplicationError {
    msg: String,
    kind: Kind,
}

impl View for ApplicationError {
    type V = ErrorModel;

    closed spec fn view(&self) -> ErrorModel {
        ErrorModel { msg: self.msg@, kind: self.kind }
    }
}

impl ApplicationError {
    pub fn new(msg: String, kind: Kind) -> (r: Self)
        ensures
            r@ == (ErrorModel { msg: msg@, kind: kind }),
    {
        Self { msg, kind }
    }

    /// The message.
    pub fn msg(&self) -> (r: &String)
        ensures
            r@ == self@.msg,
    {
        &self.msg
    }

    /// The kind.
    pub fn kind(&self) -> (r: Kind)
        ensures
            r == self@.kind,
    {
        self.kind
    }

    /// The line that shows the error: its kind in brackets, then its
    /// message.
    pub fn describe(&self) -> (r: String)
        ensures
            r@ == self@.text(),
    {
        let mut out: String = String::from_str("Kind: [");
        out.append(self.kind.label().as_str());
        out.append("], Msg: ");
        out.append(self.msg.as_str());
        out
    }
}

/// The failure of an operation on a fault of the system, with its message.
pub fn new_system_error<T>(msg: &str) -> (r: Result<T, ApplicationError>)
    ensures
        r matches Err(e) && e@ == (ErrorModel { msg: msg@, kind: Kind::System }),
{
    Err(ApplicationError::new(String::from_str(msg), Kind::System))
}

} // verus!
