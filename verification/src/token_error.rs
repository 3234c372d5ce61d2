//! Errors as the lexer's interface reports them: a kind of error and the
//! range it covers, written as a sentence.
use vstd::prelude::*;
use crate::errors::Range;
use crate::text::{push_char, to_owned_string};

verus! {

/// The kinds of lexer errors.
pub enum ErrorType {
    EndOfStr,
    DecimalPoint,
    InvalidCharacter(char),
    ExpectedFound(String, String),
    Expected(String),
    ProperProperty,
    ArrowAccess,
    StartOfBlock,
    EndOfBlock,
    Semicolon,
    UnexpectedOp(String),
    UnexpectedPunc(char),
    Custom(String),
}

/// A lexer error: its kind and the range it covers.
pub struct Error {
    pub range: Range,
    pub e_type: ErrorType,
}

/// The sentence that describes an error of kind `t`.
pub open spec fn error_type_text(t: ErrorType) -> Seq<char> {
    match t {
        ErrorType::EndOfStr => "Expected end of string"@,
        ErrorType::DecimalPoint => "Numbers cannot contain more than one decimal point"@,
        ErrorType::ProperProperty => "Expected a property name"@,
        ErrorType::InvalidCharacter(c) => "Invalid character "@.push(c),
        ErrorType::UnexpectedOp(op) => "Unexpected operator "@ + op@,
        ErrorType::UnexpectedPunc(p) => "Unexpected punctuation "@.push(p),
        ErrorType::Semicolon => "Expected semicolon at the end of the expression"@,
        ErrorType::EndOfBlock => "Expected end of block"@,
        ErrorType::Expected(val) => "Expected "@ + val@,
        ErrorType::ExpectedFound(val, found) => "Expected "@ + val@ + ", but found "@ + found@,
        ErrorType::StartOfBlock => "Expected start of block"@,
        ErrorType::ArrowAccess => "Arrow access cannot be chained"@,
        ErrorType::Custom(msg) => msg@,
    }
}

/// `a` followed by `b`.
fn joined(a: &str, b: &str) -> (s: String)
    ensures
        s@ == a@ + b@,
{
    let mut s = to_owned_string(a);
    s.append(b);
    s
}

impl Error {
    /// The sentence that describes the error.
    pub fn to_string(&self) -> (s: String)
        ensures
            s@ == error_type_text(self.e_type),
    {
        match &self.e_type {
            ErrorType::EndOfStr => to_owned_string("Expected end of string"),
            ErrorType::DecimalPoint => to_owned_string("Numbers cannot contain more than one decimal point"),
            ErrorType::ProperProperty => to_owned_string("Expected a property name"),
            ErrorType::InvalidCharacter(character) => {
                let mut s = to_owned_string("Invalid character ");
                push_char(&mut s, *character);
                s
            },
            ErrorType::UnexpectedOp(op) => joined("Unexpected operator ", op.as_str()),
            ErrorType::UnexpectedPunc(punc) => {
                let mut s = to_owned_string("Unexpected punctuation ");
                push_char(&mut s, *punc);
                s
            },
            ErrorType::Semicolon => to_owned_string("Expected semicolon at the end of the expression"),
            ErrorType::EndOfBlock => to_owned_string("Expected end of block"),
            ErrorType::Expected(val) => joined("Expected ", val.as_str()),
            ErrorType::ExpectedFound(val, found) => {
                let mut s = joined("Expected ", val.as_str());
                s.append(", but found ");
                s.append(found.as_str());
                s
            },
            ErrorType::StartOfBlock => to_owned_string("Expected start of block"),
            ErrorType::ArrowAccess => to_owned_string("Arrow access cannot be chained"),
            ErrorType::Custom(msg) => to_owned_string(msg.as_str()),
        }
    }
}

} // verus!
