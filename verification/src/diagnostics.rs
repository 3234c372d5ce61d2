//! The catalogue of diagnostics and the `$`-placeholder message formatter.
use vstd::prelude::*;
use crate::errors::{BaseError, Range};
use crate::text::{push_char, to_owned_string};

verus! {

/// A diagnostic: a numeric code and a message template where each `$`
/// stands for one argument.
pub struct Diagnostic {
    pub code: u16,
    pub message: &'static str,
}

/// Names the entries of the diagnostic catalogue.
#[derive(Clone, Copy, PartialEq, Eq, Structural)]
pub enum DiagnosticId {
    EndOfStr,
    DecimalPoint,
    ExpectedPropName,
    InvalidChar,
    UnexpectedOp,
    UnexpectedPunc,
    Semicolon,
    EndOfBlock,
    ExpectedFound,
    StartOfBlock,
    ArrowAccess,
    ExpectedDelimiter,
    TooMuchTypes,
    EmptyCharLiteral,
    ConstWithoutInit,
    NoGenerics,
    EndOfIter,
    Disallowed,
    ManyEntries,
    WrongMatchArmExp,
    AlreadyHasModifier,
    Confusable,
    InvalidDigit,
    PointlessTemplate,
    OneCharEndpoint,
    Expected,
    Unexpected,
    UnexpectedEof,
    TypeNotFoundFromMod,
    InvalidMacroParam,
    ModNotFound,
    DuplicateIdent,
    InvalidAmountOfTypeParams,
}

/// The numeric code of each diagnostic.
pub open spec fn diagnostic_code(id: DiagnosticId) -> u16 {
    match id {
        DiagnosticId::EndOfStr => 1001,
        DiagnosticId::DecimalPoint => 1002,
        DiagnosticId::ExpectedPropName => 1003,
        DiagnosticId::InvalidChar => 1004,
        DiagnosticId::UnexpectedOp => 1005,
        DiagnosticId::UnexpectedPunc => 1006,
        DiagnosticId::Semicolon => 1007,
        DiagnosticId::EndOfBlock => 1008,
        DiagnosticId::ExpectedFound => 1009,
        DiagnosticId::StartOfBlock => 1010,
        DiagnosticId::ArrowAccess => 1011,
        DiagnosticId::ExpectedDelimiter => 1012,
        DiagnosticId::TooMuchTypes => 1013,
        DiagnosticId::EmptyCharLiteral => 1014,
        DiagnosticId::ConstWithoutInit => 1015,
        DiagnosticId::NoGenerics => 1016,
        DiagnosticId::EndOfIter => 1017,
        DiagnosticId::Disallowed => 1018,
        DiagnosticId::ManyEntries => 1019,
        DiagnosticId::WrongMatchArmExp => 1020,
        DiagnosticId::AlreadyHasModifier => 1021,
        DiagnosticId::Confusable => 1022,
        DiagnosticId::InvalidDigit => 1023,
        DiagnosticId::PointlessTemplate => 1024,
        DiagnosticId::OneCharEndpoint => 1025,
        DiagnosticId::Expected => 1026,
        DiagnosticId::Unexpected => 1027,
        DiagnosticId::UnexpectedEof => 1028,
        DiagnosticId::TypeNotFoundFromMod => 2001,
        DiagnosticId::InvalidMacroParam => 1029,
        DiagnosticId::ModNotFound => 2002,
        DiagnosticId::DuplicateIdent => 2003,
        DiagnosticId::InvalidAmountOfTypeParams => 2004,
    }
}

/// The message template of each diagnostic.
pub open spec fn diagnostic_text(id: DiagnosticId) -> Seq<char> {
    match id {
        DiagnosticId::EndOfStr => "Expected end of string."@,
        DiagnosticId::DecimalPoint => "Floating points cannot contain more than one decimal point."@,
        DiagnosticId::ExpectedPropName => "Expected a property name."@,
        DiagnosticId::InvalidChar => "Invalid character $."@,
        DiagnosticId::UnexpectedOp => "Unexpected operator $."@,
        DiagnosticId::UnexpectedPunc => "Unexpected punctuation $."@,
        DiagnosticId::Semicolon => "Expected semicolon at the end of the expression."@,
        DiagnosticId::EndOfBlock => "Expected end of block."@,
        DiagnosticId::ExpectedFound => "Expected $, but found $."@,
        DiagnosticId::StartOfBlock => "Expected start of block."@,
        DiagnosticId::ArrowAccess => "Arrow access cannot be chained."@,
        DiagnosticId::ExpectedDelimiter => "Expected delimiter $."@,
        DiagnosticId::TooMuchTypes => "Too much typings provided, expected only $."@,
        DiagnosticId::EmptyCharLiteral => "Empty character literal."@,
        DiagnosticId::ConstWithoutInit => "Constant variables must have an initializer."@,
        DiagnosticId::NoGenerics => "Generics are not allowed here."@,
        DiagnosticId::EndOfIter => "Expected end of iterator."@,
        DiagnosticId::Disallowed => "$ is not allowed here."@,
        DiagnosticId::ManyEntries => "Too many entry points. There can be only one."@,
        DiagnosticId::WrongMatchArmExp => "Incorrect match arm expression. Match arms only accept enum variants or literals."@,
        DiagnosticId::AlreadyHasModifier => "The field is already $. Unnecessary modifier."@,
        DiagnosticId::Confusable => "Found $, which is very similar to $."@,
        DiagnosticId::InvalidDigit => "Invalid digit."@,
        DiagnosticId::PointlessTemplate => "Pointless template literls. Use normal string literals instead."@,
        DiagnosticId::OneCharEndpoint => "Expected character to contain only one codepoint."@,
        DiagnosticId::Expected => "Expected $."@,
        DiagnosticId::Unexpected => "Unexpected $."@,
        DiagnosticId::UnexpectedEof => "Unexpected end of file."@,
        DiagnosticId::TypeNotFoundFromMod => "Type $ not found from module $"@,
        DiagnosticId::InvalidMacroParam => "Invalid macro parameter type $."@,
        DiagnosticId::ModNotFound => "Module $ not found."@,
        DiagnosticId::DuplicateIdent => "Duplicate identifier $."@,
        DiagnosticId::InvalidAmountOfTypeParams => "Expected $ type parameters, but found $."@,
    }
}

/// How many arguments each diagnostic's template takes.
pub open spec fn diagnostic_arity(id: DiagnosticId) -> nat {
    match id {
        DiagnosticId::InvalidChar => 1,
        DiagnosticId::UnexpectedOp => 1,
        DiagnosticId::UnexpectedPunc => 1,
        DiagnosticId::ExpectedFound => 2,
        DiagnosticId::ExpectedDelimiter => 1,
        DiagnosticId::TooMuchTypes => 1,
        DiagnosticId::Disallowed => 1,
        DiagnosticId::AlreadyHasModifier => 1,
        DiagnosticId::Confusable => 2,
        DiagnosticId::Expected => 1,
        DiagnosticId::Unexpected => 1,
        DiagnosticId::TypeNotFoundFromMod => 2,
        DiagnosticId::InvalidMacroParam => 1,
        DiagnosticId::ModNotFound => 1,
        DiagnosticId::DuplicateIdent => 1,
        DiagnosticId::InvalidAmountOfTypeParams => 2,
        _ => 0,
    }
}

/// Number of `$` placeholders in a template from index `i` on.
pub open spec fn placeholders_from(msg: Seq<char>, i: int) -> nat
    decreases msg.len() - i,
{
    if i < 0 || i >= msg.len() {
        0
    } else if msg[i] == '$' {
        1 + placeholders_from(msg, i + 1)
    } else {
        placeholders_from(msg, i + 1)
    }
}

/// Number of `$` placeholders in a template.
pub open spec fn placeholders(msg: Seq<char>) -> nat {
    placeholders_from(msg, 0)
}

/// The template with its `$` placeholders replaced, left to right, by `vars`.
pub open spec fn fill(msg: Seq<char>, vars: Seq<Seq<char>>) -> Seq<char>
    decreases msg.len(),
{
    if msg.len() == 0 {
        Seq::empty()
    } else if msg[0] == '$' {
        vars[0] + fill(msg.drop_first(), vars.drop_first())
    } else {
        seq![msg[0]] + fill(msg.drop_first(), vars)
    }
}

/// A template without placeholders (from `i` on) is left unchanged whatever the arguments.
pub proof fn lemma_fill_no_placeholders(msg: Seq<char>, i: int, vars: Seq<Seq<char>>)
    requires
        0 <= i <= msg.len(),
        placeholders_from(msg, i) == 0,
    ensures
        fill(msg.skip(i), vars) == msg.skip(i),
    decreases msg.len() - i,
{
    if i < msg.len() {
        lemma_fill_no_placeholders(msg, i + 1, vars);
        assert(msg.skip(i).drop_first() =~= msg.skip(i + 1));
        assert(msg.skip(i) =~= seq![msg[i]] + msg.skip(i + 1));
    }
}

/// The views of a list of string slices.
pub open spec fn str_views(vars: Seq<&str>) -> Seq<Seq<char>> {
    vars.map_values(|s: &str| s@)
}

/// A formatted message: the template itself when no argument is given,
/// else the template with its placeholders filled.
pub open spec fn formatted(msg: Seq<char>, vars: Seq<Seq<char>>) -> Seq<char> {
    if vars.len() == 0 {
        msg
    } else {
        fill(msg, vars)
    }
}

/// Each catalogue template has exactly as many placeholders as its arity.
pub proof fn lemma_diagnostic_placeholders(id: DiagnosticId)
    ensures
        placeholders(diagnostic_text(id)) == diagnostic_arity(id),
{
    match id {
        DiagnosticId::EndOfStr => {
            reveal_strlit("Expected end of string.");
            reveal_with_fuel(placeholders_from, 25);
        },
        DiagnosticId::DecimalPoint => {
            reveal_strlit("Floating points cannot contain more than one decimal point.");
            reveal_with_fuel(placeholders_from, 61);
        },
        DiagnosticId::ExpectedPropName => {
            reveal_strlit("Expected a property name.");
            reveal_with_fuel(placeholders_from, 27);
        },
        DiagnosticId::InvalidChar => {
            reveal_strlit("Invalid character $.");
            reveal_with_fuel(placeholders_from, 22);
        },
        DiagnosticId::UnexpectedOp => {
            reveal_strlit("Unexpected operator $.");
            reveal_with_fuel(placeholders_from, 24);
        },
        DiagnosticId::UnexpectedPunc => {
            reveal_strlit("Unexpected punctuation $.");
            reveal_with_fuel(placeholders_from, 27);
        },
        DiagnosticId::Semicolon => {
            reveal_strlit("Expected semicolon at the end of the expression.");
            reveal_with_fuel(placeholders_from, 50);
        },
        DiagnosticId::EndOfBlock => {
            reveal_strlit("Expected end of block.");
            reveal_with_fuel(placeholders_from, 24);
        },
        DiagnosticId::ExpectedFound => {
            reveal_strlit("Expected $, but found $.");
            reveal_with_fuel(placeholders_from, 26);
        },
        DiagnosticId::StartOfBlock => {
            reveal_strlit("Expected start of block.");
            reveal_with_fuel(placeholders_from, 26);
        },
        DiagnosticId::ArrowAccess => {
            reveal_strlit("Arrow access cannot be chained.");
            reveal_with_fuel(placeholders_from, 33);
        },
        DiagnosticId::ExpectedDelimiter => {
            reveal_strlit("Expected delimiter $.");
            reveal_with_fuel(placeholders_from, 23);
        },
        DiagnosticId::TooMuchTypes => {
            reveal_strlit("Too much typings provided, expected only $.");
            reveal_with_fuel(placeholders_from, 45);
        },
        DiagnosticId::EmptyCharLiteral => {
            reveal_strlit("Empty character literal.");
            reveal_with_fuel(placeholders_from, 26);
        },
        DiagnosticId::ConstWithoutInit => {
            reveal_strlit("Constant variables must have an initializer.");
            reveal_with_fuel(placeholders_from, 46);
        },
        DiagnosticId::NoGenerics => {
            reveal_strlit("Generics are not allowed here.");
            reveal_with_fuel(placeholders_from, 32);
        },
        DiagnosticId::EndOfIter => {
            reveal_strlit("Expected end of iterator.");
            reveal_with_fuel(placeholders_from, 27);
        },
        DiagnosticId::Disallowed => {
            reveal_strlit("$ is not allowed here.");
            reveal_with_fuel(placeholders_from, 24);
        },
        DiagnosticId::ManyEntries => {
            reveal_strlit("Too many entry points. There can be only one.");
            reveal_with_fuel(placeholders_from, 47);
        },
        DiagnosticId::WrongMatchArmExp => {
            reveal_strlit("Incorrect match arm expression. Match arms only accept enum variants or literals.");
            reveal_with_fuel(placeholders_from, 83);
        },
        DiagnosticId::AlreadyHasModifier => {
            reveal_strlit("The field is already $. Unnecessary modifier.");
            reveal_with_fuel(placeholders_from, 47);
        },
        DiagnosticId::Confusable => {
            reveal_strlit("Found $, which is very similar to $.");
            reveal_with_fuel(placeholders_from, 38);
        },
        DiagnosticId::InvalidDigit => {
            reveal_strlit("Invalid digit.");
            reveal_with_fuel(placeholders_from, 16);
        },
        DiagnosticId::PointlessTemplate => {
            reveal_strlit("Pointless template literls. Use normal string literals instead.");
            reveal_with_fuel(placeholders_from, 65);
        },
        DiagnosticId::OneCharEndpoint => {
            reveal_strlit("Expected character to contain only one codepoint.");
            reveal_with_fuel(placeholders_from, 51);
        },
        DiagnosticId::Expected => {
            reveal_strlit("Expected $.");
            reveal_with_fuel(placeholders_from, 13);
        },
        DiagnosticId::Unexpected => {
            reveal_strlit("Unexpected $.");
            reveal_with_fuel(placeholders_from, 15);
        },
        DiagnosticId::UnexpectedEof => {
            reveal_strlit("Unexpected end of file.");
            reveal_with_fuel(placeholders_from, 25);
        },
        DiagnosticId::TypeNotFoundFromMod => {
            reveal_strlit("Type $ not found from module $");
            reveal_with_fuel(placeholders_from, 32);
        },
        DiagnosticId::InvalidMacroParam => {
            reveal_strlit("Invalid macro parameter type $.");
            reveal_with_fuel(placeholders_from, 33);
        },
        DiagnosticId::ModNotFound => {
            reveal_strlit("Module $ not found.");
            reveal_with_fuel(placeholders_from, 21);
        },
        DiagnosticId::DuplicateIdent => {
            reveal_strlit("Duplicate identifier $.");
            reveal_with_fuel(placeholders_from, 25);
        },
        DiagnosticId::InvalidAmountOfTypeParams => {
            reveal_strlit("Expected $ type parameters, but found $.");
            reveal_with_fuel(placeholders_from, 42);
        },
    }
}

impl Diagnostics {
    /// The catalogue entry named `id`.
    pub fn get(id: DiagnosticId) -> (d: Diagnostic)
        ensures
            d.code == diagnostic_code(id),
            d.message@ == diagnostic_text(id),
    {
        match id {
            DiagnosticId::EndOfStr => Diagnostic { code: 1001, message: "Expected end of string." },
            DiagnosticId::DecimalPoint => Diagnostic {
                code: 1002,
                message: "Floating points cannot contain more than one decimal point.",
            },
            DiagnosticId::ExpectedPropName => Diagnostic {
                code: 1003,
                message: "Expected a property name.",
            },
            DiagnosticId::InvalidChar => Diagnostic { code: 1004, message: "Invalid character $." },
            DiagnosticId::UnexpectedOp => Diagnostic { code: 1005, message: "Unexpected operator $." },
            DiagnosticId::UnexpectedPunc => Diagnostic {
                code: 1006,
                message: "Unexpected punctuation $.",
            },
            DiagnosticId::Semicolon => Diagnostic {
                code: 1007,
                message: "Expected semicolon at the end of the expression.",
            },
            DiagnosticId::EndOfBlock => Diagnostic { code: 1008, message: "Expected end of block." },
            DiagnosticId::ExpectedFound => Diagnostic {
                code: 1009,
                message: "Expected $, but found $.",
            },
            DiagnosticId::StartOfBlock => Diagnostic {
                code: 1010,
                message: "Expected start of block.",
            },
            DiagnosticId::ArrowAccess => Diagnostic {
                code: 1011,
                message: "Arrow access cannot be chained.",
            },
            DiagnosticId::ExpectedDelimiter => Diagnostic {
                code: 1012,
                message: "Expected delimiter $.",
            },
            DiagnosticId::TooMuchTypes => Diagnostic {
                code: 1013,
                message: "Too much typings provided, expected only $.",
            },
            DiagnosticId::EmptyCharLiteral => Diagnostic {
                code: 1014,
                message: "Empty character literal.",
            },
            DiagnosticId::ConstWithoutInit => Diagnostic {
                code: 1015,
                message: "Constant variables must have an initializer.",
            },
            DiagnosticId::NoGenerics => Diagnostic {
                code: 1016,
                message: "Generics are not allowed here.",
            },
            DiagnosticId::EndOfIter => Diagnostic { code: 1017, message: "Expected end of iterator." },
            DiagnosticId::Disallowed => Diagnostic { code: 1018, message: "$ is not allowed here." },
            DiagnosticId::ManyEntries => Diagnostic {
                code: 1019,
                message: "Too many entry points. There can be only one.",
            },
            DiagnosticId::WrongMatchArmExp => Diagnostic {
                code: 1020,
                message: "Incorrect match arm expression. Match arms only accept enum variants or literals.",
            },
            DiagnosticId::AlreadyHasModifier => Diagnostic {
                code: 1021,
                message: "The field is already $. Unnecessary modifier.",
            },
            DiagnosticId::Confusable => Diagnostic {
                code: 1022,
                message: "Found $, which is very similar to $.",
            },
            DiagnosticId::InvalidDigit => Diagnostic { code: 1023, message: "Invalid digit." },
            DiagnosticId::PointlessTemplate => Diagnostic {
                code: 1024,
                message: "Pointless template literls. Use normal string literals instead.",
            },
            DiagnosticId::OneCharEndpoint => Diagnostic {
                code: 1025,
                message: "Expected character to contain only one codepoint.",
            },
            DiagnosticId::Expected => Diagnostic { code: 1026, message: "Expected $." },
            DiagnosticId::Unexpected => Diagnostic { code: 1027, message: "Unexpected $." },
            DiagnosticId::UnexpectedEof => Diagnostic { code: 1028, message: "Unexpected end of file." },
            DiagnosticId::TypeNotFoundFromMod => Diagnostic {
                code: 2001,
                message: "Type $ not found from module $",
            },
            DiagnosticId::InvalidMacroParam => Diagnostic { code: 1029, message: "Invalid macro parameter type $." },
            DiagnosticId::ModNotFound => Diagnostic { code: 2002, message: "Module $ not found." },
            DiagnosticId::DuplicateIdent => Diagnostic { code: 2003, message: "Duplicate identifier $." },
            DiagnosticId::InvalidAmountOfTypeParams => Diagnostic { code: 2004, message: "Expected $ type parameters, but found $." },
        }
    }
}

/// The holder of the diagnostic catalogue (see [`Diagnostics::get`]).
pub struct Diagnostics;

/// Replaces, left to right, each `$` of the diagnostic's message by the next
/// argument. Without arguments the message comes back unchanged.
pub fn format_diagnostic(diagnostic: &Diagnostic, vars: Vec<&str>) -> (s: String)
    requires
        vars@.len() == 0 || placeholders(diagnostic.message@) <= vars@.len(),
    ensures
        s@ == formatted(diagnostic.message@, str_views(vars@)),
{
    let msg = diagnostic.message;
    if vars.len() == 0 {
        return to_owned_string(msg);
    }
    let ghost m = msg@;
    let ghost vs = str_views(vars@);
    let n = msg.unicode_len();
    let mut ind: usize = 0;
    let mut new_str = String::new();
    let mut i: usize = 0;
    assert(m.skip(0) =~= m);
    assert(vs.skip(0) =~= vs);
    while i < n
        invariant
            n == m.len(),
            m == msg@,
            vs == str_views(vars@),
            i <= n,
            ind <= vars@.len(),
            placeholders_from(m, i as int) <= vars@.len() - ind,
            new_str@ + fill(m.skip(i as int), vs.skip(ind as int)) == fill(m, vs),
        decreases n - i,
    {
        let ch = msg.get_char(i);
        assert(m[i as int] == ch);
        assert(m.skip(i as int)[0] == ch);
        assert(m.skip(i as int).drop_first() =~= m.skip(i + 1));
        if ch == '$' {
            assert(placeholders_from(m, i as int) == 1 + placeholders_from(m, i + 1));
            assert(ind < vars@.len());
            assert(ind < vars.len());
            let v: &str = vars[ind];
            assert(vs.skip(ind as int)[0] == v@);
            assert(vs.skip(ind as int).drop_first() =~= vs.skip(ind + 1));
            new_str.append(v);
            ind = ind + 1;
        } else {
            push_char(&mut new_str, ch);
        }
        i = i + 1;
    }
    assert(m.skip(n as int) =~= Seq::<char>::empty());
    new_str
}

/// `e` is the error built from catalogue entry `id` with arguments `vars` at range `r`.
pub open spec fn error_is(e: BaseError, id: DiagnosticId, vars: Seq<Seq<char>>, r: Range) -> bool {
    &&& e.msg@ == formatted(diagnostic_text(id), vars)
    &&& e.range == r
    &&& e.labels@.len() == 0
}

/// An error built from a catalogue entry, its arguments and a range,
/// without labels.
pub fn err(id: DiagnosticId, range: Range, vars: Vec<&str>) -> (e: BaseError)
    requires
        vars@.len() == 0 || diagnostic_arity(id) <= vars@.len(),
    ensures
        error_is(e, id, str_views(vars@), range),
{
    proof {
        lemma_diagnostic_placeholders(id);
    }
    let d = Diagnostics::get(id);
    let msg = format_diagnostic(&d, vars);
    BaseError::new(msg, range)
}

} // verus!
