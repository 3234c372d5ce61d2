//! The kinds of errors the parser reports, with their messages.
use vstd::prelude::*;
use crate::text::{char_to_string, i32_to_string, int_text, to_owned_string};

verus! {

/// A parse error and what it carries.
pub enum ParserErrorType {
    EndOfStr,
    DecimalPoint,
    InvalidCharacter(char),
    ExpectedFound(String, String),
    Expected(&'static str),
    ExpectedString(String),
    ExpectedDelimiter(char),
    ProperProperty,
    ArrowAccess,
    StartOfBlock,
    EndOfBlock,
    Semicolon,
    EmptyCharLiteral,
    ConstantWithoutInit,
    NoGenerics,
    TooMuchTypes(i8),
    UnexpectedOp(String),
    UnexpectedPunc(char),
    Unexpected(&'static str),
    EndOfIterator,
    ManyEntryPoints,
    WrongMatchArmExp,
    AlreadyHasModifier(&'static str),
    Disallowed(&'static str),
    Custom(&'static str),
    Confusable(&'static str, &'static str),
    InvalidDigit,
    PointlessTemplate,
}

/// The message of a parse error.
pub open spec fn parser_error_text(e: ParserErrorType) -> Seq<char> {
    match e {
        ParserErrorType::EndOfStr => "Expected end of string"@,
        ParserErrorType::DecimalPoint => "Numbers cannot contain more than one decimal point"@,
        ParserErrorType::ProperProperty => "Expected a property name"@,
        ParserErrorType::InvalidCharacter(c) => "Invalid character "@ + seq![c],
        ParserErrorType::UnexpectedOp(op) => "Unexpected operator "@ + op@,
        ParserErrorType::UnexpectedPunc(p) => "Unexpected punctuation "@ + seq![p],
        ParserErrorType::Semicolon => "Expected semicolon at the end of the expression"@,
        ParserErrorType::EndOfBlock => "Expected end of block"@,
        ParserErrorType::Expected(v) => "Expected "@ + v@,
        ParserErrorType::ExpectedString(v) => "Expected "@ + v@,
        ParserErrorType::ExpectedFound(v, f) => "Expected "@ + v@ + ", but found "@ + f@,
        ParserErrorType::StartOfBlock => "Expected start of block"@,
        ParserErrorType::ArrowAccess => "Arrow access cannot be chained"@,
        ParserErrorType::ExpectedDelimiter(c) => "Expected delimiter "@ + seq![c],
        ParserErrorType::Custom(m) => m@,
        ParserErrorType::Unexpected(m) => "Unexpected "@ + m@,
        ParserErrorType::TooMuchTypes(n) => "Too much typings provided, expected only "@ + int_text(
            n as int,
        ),
        ParserErrorType::EmptyCharLiteral => "Empty char literal"@,
        ParserErrorType::ConstantWithoutInit => "Constant variables must have an initializor"@,
        ParserErrorType::NoGenerics => "Generics are not allowed here"@,
        ParserErrorType::EndOfIterator => "Expected end of iterator"@,
        ParserErrorType::Disallowed(s) => s@ + " is not allowed here"@,
        ParserErrorType::ManyEntryPoints => "Too many entry points"@,
        ParserErrorType::WrongMatchArmExp =>
            "Incorrect match arm expression. Match arms only accept enum variants or literals."@,
        ParserErrorType::AlreadyHasModifier(s) => "The field is already "@ + s@ + ", unnecessary "@
            + s@ + " modifier"@,
        ParserErrorType::Confusable(a, b) => "Found "@ + a@ + ", which is similar to "@ + b@,
        ParserErrorType::InvalidDigit => "Invalid digit"@,
        ParserErrorType::PointlessTemplate => "Pointless template literal"@,
    }
}

/// Joins two texts.
fn join2(a: &str, b: &str) -> (s: String)
    ensures
        s@ == a@ + b@,
{
    let mut s = to_owned_string(a);
    s.append(b);
    s
}

impl ParserErrorType {
    /// An "expected ..., but found ..." error.
    pub fn expected_found(a: String, b: String) -> (e: ParserErrorType)
        ensures
            e == ParserErrorType::ExpectedFound(a, b),
    {
        ParserErrorType::ExpectedFound(a, b)
    }

    /// The message of the error (see [`parser_error_text`]).
    pub fn message(&self) -> (s: String)
        ensures
            s@ == parser_error_text(*self),
    {
        match self {
            ParserErrorType::EndOfStr => to_owned_string("Expected end of string"),
            ParserErrorType::DecimalPoint => to_owned_string(
                "Numbers cannot contain more than one decimal point",
            ),
            ParserErrorType::ProperProperty => to_owned_string("Expected a property name"),
            ParserErrorType::InvalidCharacter(c) => {
                let t = char_to_string(*c);
                join2("Invalid character ", t.as_str())
            },
            ParserErrorType::UnexpectedOp(op) => join2("Unexpected operator ", op.as_str()),
            ParserErrorType::UnexpectedPunc(p) => {
                let t = char_to_string(*p);
                join2("Unexpected punctuation ", t.as_str())
            },
            ParserErrorType::Semicolon => to_owned_string(
                "Expected semicolon at the end of the expression",
            ),
            ParserErrorType::EndOfBlock => to_owned_string("Expected end of block"),
            ParserErrorType::Expected(v) => join2("Expected ", v),
            ParserErrorType::ExpectedString(v) => join2("Expected ", v.as_str()),
            ParserErrorType::ExpectedFound(v, f) => {
                let mut s = join2("Expected ", v.as_str());
                s.append(", but found ");
                s.append(f.as_str());
                s
            },
            ParserErrorType::StartOfBlock => to_owned_string("Expected start of block"),
            ParserErrorType::ArrowAccess => to_owned_string("Arrow access cannot be chained"),
            ParserErrorType::ExpectedDelimiter(c) => {
                let t = char_to_string(*c);
                join2("Expected delimiter ", t.as_str())
            },
            ParserErrorType::Custom(m) => to_owned_string(m),
            ParserErrorType::Unexpected(m) => join2("Unexpected ", m),
            ParserErrorType::TooMuchTypes(n) => {
                let t = i32_to_string(*n as i32);
                join2("Too much typings provided, expected only ", t.as_str())
            },
            ParserErrorType::EmptyCharLiteral => to_owned_string("Empty char literal"),
            ParserErrorType::ConstantWithoutInit => to_owned_string(
                "Constant variables must have an initializor",
            ),
            ParserErrorType::NoGenerics => to_owned_string("Generics are not allowed here"),
            ParserErrorType::EndOfIterator => to_owned_string("Expected end of iterator"),
            ParserErrorType::Disallowed(s) => join2(s, " is not allowed here"),
            ParserErrorType::ManyEntryPoints => to_owned_string("Too many entry points"),
            ParserErrorType::WrongMatchArmExp => to_owned_string(
                "Incorrect match arm expression. Match arms only accept enum variants or literals.",
            ),
            ParserErrorType::AlreadyHasModifier(s) => {
                let mut r = join2("The field is already ", s);
                r.append(", unnecessary ");
                r.append(s);
                r.append(" modifier");
                r
            },
            ParserErrorType::Confusable(a, b) => {
                let mut r = join2("Found ", a);
                r.append(", which is similar to ");
                r.append(b);
                r
            },
            ParserErrorType::InvalidDigit => to_owned_string("Invalid digit"),
            ParserErrorType::PointlessTemplate => to_owned_string("Pointless template literal"),
        }
    }
}

} // verus!
