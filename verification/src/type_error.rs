//! Errors of the type checker.
use vstd::prelude::*;
use crate::text::to_owned_string;

verus! {

/// A type error and what it carries.
pub enum TypeErrors {
    Incompatible(String, String),
    StructExists(String),
    TypeDoesntExist(String),
    NotImplemented,
}

/// The message of a type error.
pub open spec fn type_error_text(e: TypeErrors) -> Seq<char> {
    match e {
        TypeErrors::Incompatible(a, b) => "Types "@ + a@ + " and "@ + b@ + " are incompatible"@,
        TypeErrors::StructExists(n) => "The struct with name '"@ + n@ + "' already exists"@,
        TypeErrors::TypeDoesntExist(t) => "The type "@ + t@ + " doesn't exist"@,
        TypeErrors::NotImplemented => "Not implemented"@,
    }
}

impl TypeErrors {
    /// The message of the error (see [`type_error_text`]).
    pub fn message(&self) -> (s: String)
        ensures
            s@ == type_error_text(*self),
    {
        match self {
            TypeErrors::Incompatible(a, b) => {
                let mut s = to_owned_string("Types ");
                s.append(a.as_str());
                s.append(" and ");
                s.append(b.as_str());
                s.append(" are incompatible");
                s
            },
            TypeErrors::StructExists(n) => {
                let mut s = to_owned_string("The struct with name '");
                s.append(n.as_str());
                s.append("' already exists");
                s
            },
            TypeErrors::TypeDoesntExist(t) => {
                let mut s = to_owned_string("The type ");
                s.append(t.as_str());
                s.append(" doesn't exist");
                s
            },
            TypeErrors::NotImplemented => to_owned_string("Not implemented"),
        }
    }
}

} // verus!
