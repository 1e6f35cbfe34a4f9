//! Failures while a script runs.
use vstd::prelude::*;
use crate::vm::context::{shape_name, Shape};
use vstd::string::StringExecFns;

verus! {

/// A failure while a script runs.
#[derive(Clone, Debug, PartialEq, Eq)]
pub enum Trap {
    /// A variable is stored with another shape than the one asked for.
    DowncastError(Shape),
    /// The program counter is past the end of the script.
    ScriptOutOfBounds,
    /// A variable that a command needs is not set.
    MissingGlobal(String),
    /// Any other failure of a command.
    Runtime(String),
}

/// The description of trap `t`.
pub open spec fn trap_message(t: Trap) -> Seq<char> {
    match t {
        Trap::DowncastError(s) => "could not convert to type: "@ + shape_name(s),
        Trap::ScriptOutOfBounds => "script out of bounds"@,
        Trap::MissingGlobal(n) => "could not find global variable: "@ + n@,
        Trap::Runtime(e) => e@,
    }
}

impl Trap {
    /// A description of the failure.
    pub fn message(&self) -> (r: String)
        ensures
            r@ == trap_message(*self),
    {
        match self {
            Trap::DowncastError(s) => {
                let mut m = String::from_str("could not convert to type: ");
                m.append(s.name());
                m
            },
            Trap::ScriptOutOfBounds => String::from_str("script out of bounds"),
            Trap::MissingGlobal(n) => {
                let mut m = String::from_str("could not find global variable: ");
                m.append(n.as_str());
                m
            },
            Trap::Runtime(e) => String::from_str(e.as_str()),
        }
    }

    /// A runtime failure with message `err`.
    pub fn runtime(err: &str) -> (r: Trap)
        ensures
            r matches Trap::Runtime(m) && m@ == err@,
    {
        Trap::Runtime(err.to_owned())
    }

    /// A failure for the missing variable `name`.
    pub fn missing_global(name: &str) -> (r: Trap)
        ensures
            r matches Trap::MissingGlobal(m) && m@ == name@,
    {
        Trap::MissingGlobal(name.to_owned())
    }
}

} // verus!
