//! The failures that verification reports to its caller.

use vstd::prelude::*;

verus! {

/// Why a verification did not succeed.
#[derive(Debug)]
pub enum Error {
    /// The input could not be read: a proof that ends early, a wrong number of
    /// instances, or an encoding that is no field element or curve point.
    MalformedInput(String),
    /// Two values that had to be equal were not. The text says which.
    ConstraintViolation(String),
}

impl Error {
    /// The text that the failure carries.
    pub open spec fn text(self) -> Seq<char> {
        match self {
            Error::MalformedInput(s) => s@,
            Error::ConstraintViolation(s) => s@,
        }
    }

    /// Whether this failure is a violated equality.
    pub fn is_constraint_violation(&self) -> (b: bool)
        ensures
            b == (self is ConstraintViolation),
    {
        match self {
            Error::ConstraintViolation(_) => true,
            Error::MalformedInput(_) => false,
        }
    }

    /// Whether this failure is an unreadable input.
    pub fn is_malformed_input(&self) -> (b: bool)
        ensures
            b == (self is MalformedInput),
    {
        match self {
            Error::MalformedInput(_) => true,
            Error::ConstraintViolation(_) => false,
        }
    }

    /// A copy of the text that the failure carries.
    pub fn message(&self) -> (s: String)
        ensures
            s@ == self.text(),
    {
        match self {
            Error::MalformedInput(s) => s.clone(),
            Error::ConstraintViolation(s) => s.clone(),
        }
    }
}

} // verus!
