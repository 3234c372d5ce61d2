//! The lexer: turns source characters into tokens, recording lexical errors.
use vstd::prelude::*;
use crate::errors::{BaseError, LoC, Range};
use crate::diagnostics::{
    DiagnosticId, Diagnostics, diagnostic_text, err, error_is, format_diagnostic, formatted,
    lemma_diagnostic_placeholders, str_views,
};
use crate::input_parser::{InputParser, InputSequence};
use crate::text::{
    char_to_string, i32_to_string, int_text, push_char, str_eq, to_owned_string, string_of_chars,
};
use crate::parser_error::{ParserErrorType, parser_error_text};
use crate::numeric::{digit_value, digits_in_radix, radix_value, numeral_value};

verus! {

/// A floating point literal as written: its digits (underscores removed,
/// one decimal point kept) and the time-unit factor of its suffix.
pub struct FloatLit {
    pub digits: String,
    pub scale: u32,
}

/// The kinds of tokens.
pub enum TokenType {
    Str(String),
    TempStrStart,
    Float(FloatLit),
    Int(i32),
    Kw(String),
    Bool(bool),
    Var(String),
    Op(String),
    Char(char),
    Punc(char),
    NoneValue,
}

/// The mathematical value of a token.
pub enum TokenVal {
    Str(Seq<char>),
    TempStrStart,
    Float(Seq<char>, u32),
    Int(i32),
    Kw(Seq<char>),
    Bool(bool),
    Var(Seq<char>),
    Op(Seq<char>),
    Char(char),
    Punc(char),
    NoneValue,
}

impl View for TokenType {
    type V = TokenVal;

    open spec fn view(&self) -> TokenVal {
        match self {
            TokenType::Str(s) => TokenVal::Str(s@),
            TokenType::TempStrStart => TokenVal::TempStrStart,
            TokenType::Float(f) => TokenVal::Float(f.digits@, f.scale),
            TokenType::Int(i) => TokenVal::Int(*i),
            TokenType::Kw(s) => TokenVal::Kw(s@),
            TokenType::Bool(b) => TokenVal::Bool(*b),
            TokenType::Var(s) => TokenVal::Var(s@),
            TokenType::Op(s) => TokenVal::Op(s@),
            TokenType::Char(c) => TokenVal::Char(*c),
            TokenType::Punc(c) => TokenVal::Punc(*c),
            TokenType::NoneValue => TokenVal::NoneValue,
        }
    }
}

/// The radix prefix of a number literal.
#[derive(PartialEq, Eq, Structural, Clone, Copy)]
pub enum NumberType {
    Binary,
    Octal,
    Hex,
    Decimal,
}

/// A token and the range it spans.
pub struct Token {
    pub range: Range,
    pub val: TokenType,
}

impl TokenType {
    /// A copy of the token type.
    pub fn duplicate(&self) -> (r: TokenType)
        ensures
            r@ == self@,
    {
        match self {
            TokenType::Str(s) => TokenType::Str(s.clone()),
            TokenType::TempStrStart => TokenType::TempStrStart,
            TokenType::Float(f) => TokenType::Float(FloatLit { digits: f.digits.clone(), scale: f.scale }),
            TokenType::Int(i) => TokenType::Int(*i),
            TokenType::Kw(s) => TokenType::Kw(s.clone()),
            TokenType::Bool(b) => TokenType::Bool(*b),
            TokenType::Var(s) => TokenType::Var(s.clone()),
            TokenType::Op(s) => TokenType::Op(s.clone()),
            TokenType::Char(c) => TokenType::Char(*c),
            TokenType::Punc(c) => TokenType::Punc(*c),
            TokenType::NoneValue => TokenType::NoneValue,
        }
    }

    /// How the token is named in messages (see [`token_text`]).
    pub fn to_display_string(&self) -> (s: String)
        ensures
            s@ == token_text(self@),
    {
        let (head, tail): (&str, String) = match self {
            TokenType::Str(s) => ("string ", s.clone()),
            TokenType::Float(f) => {
                let mut d = f.digits.clone();
                if f.scale == 1000 {
                    push_char(&mut d, 's');
                } else if f.scale == 60000 {
                    push_char(&mut d, 'm');
                } else if f.scale == 3600000 {
                    push_char(&mut d, 'h');
                } else if f.scale == 86400000 {
                    push_char(&mut d, 'd');
                }
                assert(d@ =~= f.digits@ + unit_text(f.scale));
                ("float ", d)
            },
            TokenType::Int(i) => ("integer ", i32_to_string(*i)),
            TokenType::Kw(k) => ("keyword ", k.clone()),
            TokenType::Bool(b) => (
                "boolean ",
                if *b {
                    to_owned_string("true")
                } else {
                    to_owned_string("false")
                },
            ),
            TokenType::Var(n) => ("identifier ", n.clone()),
            TokenType::Op(o) => ("operator ", o.clone()),
            TokenType::Punc(c) => ("punctuation ", char_to_string(*c)),
            TokenType::Char(c) => ("char ", char_to_string(*c)),
            TokenType::TempStrStart => ("beginning of template literal", String::new()),
            TokenType::NoneValue => ("none", String::new()),
        };
        let mut s = to_owned_string(head);
        s.append(tail.as_str());
        s
    }

    /// Whether two token types are equal: the same kind with the same contents.
    pub fn same(&self, other: &TokenType) -> (r: bool)
        ensures
            r == (self@ == other@),
    {
        match (self, other) {
            (TokenType::Str(a), TokenType::Str(b)) => str_eq(a.as_str(), b.as_str()),
            (TokenType::TempStrStart, TokenType::TempStrStart) => true,
            (TokenType::Float(a), TokenType::Float(b)) => str_eq(a.digits.as_str(), b.digits.as_str())
                && a.scale == b.scale,
            (TokenType::Int(a), TokenType::Int(b)) => *a == *b,
            (TokenType::Kw(a), TokenType::Kw(b)) => str_eq(a.as_str(), b.as_str()),
            (TokenType::Bool(a), TokenType::Bool(b)) => *a == *b,
            (TokenType::Var(a), TokenType::Var(b)) => str_eq(a.as_str(), b.as_str()),
            (TokenType::Op(a), TokenType::Op(b)) => str_eq(a.as_str(), b.as_str()),
            (TokenType::Char(a), TokenType::Char(b)) => *a == *b,
            (TokenType::Punc(a), TokenType::Punc(b)) => *a == *b,
            (TokenType::NoneValue, TokenType::NoneValue) => true,
            _ => false,
        }
    }
}

/// The time unit a scale factor stands for, as its suffix letter.
pub open spec fn unit_text(scale: u32) -> Seq<char> {
    if scale == 1000 {
        seq!['s']
    } else if scale == 60000 {
        seq!['m']
    } else if scale == 3600000 {
        seq!['h']
    } else if scale == 86400000 {
        seq!['d']
    } else {
        Seq::empty()
    }
}

/// How a token is named in messages.
pub open spec fn token_text(v: TokenVal) -> Seq<char> {
    match v {
        TokenVal::Str(s) => "string "@ + s,
        TokenVal::Float(d, scale) => "float "@ + d + unit_text(scale),
        TokenVal::Int(i) => "integer "@ + int_text(i as int),
        TokenVal::Kw(k) => "keyword "@ + k,
        TokenVal::Bool(b) => "boolean "@ + (if b { "true"@ } else { "false"@ }),
        TokenVal::Var(n) => "identifier "@ + n,
        TokenVal::Op(o) => "operator "@ + o,
        TokenVal::Punc(c) => "punctuation "@ + seq![c],
        TokenVal::Char(c) => "char "@ + seq![c],
        TokenVal::TempStrStart => "beginning of template literal"@,
        TokenVal::NoneValue => "none"@,
    }
}

// ---------------------------------------------------------------------------
// Character classes
// ---------------------------------------------------------------------------

pub open spec fn is_ident_char(c: char) -> bool {
    ('a' <= c && c <= 'z') || ('A' <= c && c <= 'Z') || ('0' <= c && c <= '9') || c == '_'
}

pub open spec fn is_ident_start(c: char) -> bool {
    ('a' <= c && c <= 'z') || ('A' <= c && c <= 'Z') || c == '_'
}

pub open spec fn is_op_char(c: char) -> bool {
    c == '+' || c == '-' || c == '>' || c == '<' || c == '=' || c == '!' || c == '%' || c == '|'
        || c == '&' || c == '.' || c == '?' || c == '~' || c == '^' || c == '*' || c == '/'
}

pub open spec fn is_punc_char(c: char) -> bool {
    c == ',' || c == ':' || c == ';' || c == '{' || c == '}' || c == '[' || c == ']' || c == '('
        || c == ')' || c == '#'
}

pub open spec fn is_space_char(c: char) -> bool {
    c == ' ' || c == '\n' || c == '\t' || c == '\r'
}

pub open spec fn is_digit_char(c: char) -> bool {
    '0' <= c && c <= '9'
}

fn ident_char(c: char) -> (r: bool)
    ensures
        r == is_ident_char(c),
{
    ('a' <= c && c <= 'z') || ('A' <= c && c <= 'Z') || ('0' <= c && c <= '9') || c == '_'
}

fn op_char(c: char) -> (r: bool)
    ensures
        r == is_op_char(c),
{
    c == '+' || c == '-' || c == '>' || c == '<' || c == '=' || c == '!' || c == '%' || c == '|'
        || c == '&' || c == '.' || c == '?' || c == '~' || c == '^' || c == '*' || c == '/'
}

/// End of the run of identifier characters that starts at `i`.
pub open spec fn ident_end(s: Seq<char>, i: int) -> int
    decreases s.len() - i,
{
    if 0 <= i < s.len() && is_ident_char(s[i]) {
        ident_end(s, i + 1)
    } else {
        i
    }
}

/// End of the run of operator characters that starts at `i`.
pub open spec fn op_run_end(s: Seq<char>, i: int) -> int
    decreases s.len() - i,
{
    if 0 <= i < s.len() && is_op_char(s[i]) {
        op_run_end(s, i + 1)
    } else {
        i
    }
}

/// Index of the first `c` at or after `i`, or the length when there is none.
pub open spec fn find_char(s: Seq<char>, i: int, c: char) -> int
    decreases s.len() - i,
{
    if i < 0 || i >= s.len() {
        s.len() as int
    } else if s[i] == c {
        i
    } else {
        find_char(s, i + 1, c)
    }
}

pub proof fn lemma_ident_end(s: Seq<char>, i: int)
    requires
        0 <= i <= s.len(),
    ensures
        i <= ident_end(s, i) <= s.len(),
        forall|k: int| i <= k < ident_end(s, i) ==> is_ident_char(s[k]),
        ident_end(s, i) < s.len() ==> !is_ident_char(s[ident_end(s, i)]),
    decreases s.len() - i,
{
    if i < s.len() && is_ident_char(s[i]) {
        lemma_ident_end(s, i + 1);
    }
}

pub proof fn lemma_op_run_end(s: Seq<char>, i: int)
    requires
        0 <= i <= s.len(),
    ensures
        i <= op_run_end(s, i) <= s.len(),
        forall|k: int| i <= k < op_run_end(s, i) ==> is_op_char(s[k]),
        op_run_end(s, i) < s.len() ==> !is_op_char(s[op_run_end(s, i)]),
    decreases s.len() - i,
{
    if i < s.len() && is_op_char(s[i]) {
        lemma_op_run_end(s, i + 1);
    }
}

pub proof fn lemma_find_char(s: Seq<char>, i: int, c: char)
    requires
        0 <= i <= s.len(),
    ensures
        i <= find_char(s, i, c) <= s.len(),
        find_char(s, i, c) < s.len() ==> s[find_char(s, i, c)] == c,
        forall|k: int| i <= k < find_char(s, i, c) ==> s[k] != c,
    decreases s.len() - i,
{
    if i < s.len() && s[i] != c {
        lemma_find_char(s, i + 1, c);
    }
}

/// Where the operator that starts at `p` ends, reading from `j`: operator
/// characters are taken while the text read so far is not `?`, `>` or `<>`.
pub open spec fn op_end(s: Seq<char>, p: int, j: int) -> int
    decreases s.len() - j,
{
    if j < p || j >= s.len() {
        j
    } else if s.subrange(p, j) == "<>"@ || s.subrange(p, j) == "?"@ || s.subrange(p, j) == ">"@ {
        j
    } else if is_op_char(s[j]) {
        op_end(s, p, j + 1)
    } else {
        j
    }
}

/// The operator read at `p` is `<>` and more input follows: it is refused.
pub open spec fn op_refused(s: Seq<char>, p: int) -> bool {
    let e = op_end(s, p, p);
    e < s.len() && s.subrange(p, e) == "<>"@
}

pub proof fn lemma_op_end(s: Seq<char>, p: int, j: int)
    requires
        0 <= p <= j <= s.len(),
    ensures
        j <= op_end(s, p, j) <= s.len(),
    decreases s.len() - j,
{
    if j < s.len() && !(s.subrange(p, j) == "<>"@ || s.subrange(p, j) == "?"@ || s.subrange(
        p,
        j,
    ) == ">"@) && is_op_char(s[j]) {
        lemma_op_end(s, p, j + 1);
    }
}

/// An error found while reading a number literal: an invalid digit, or a
/// second decimal point, with the offset just after it.
pub enum NumErr {
    InvalidDigit,
    DecimalPoint(int),
}

/// The state of a number literal being read.
pub struct NumScan {
    pub digits: Seq<char>,
    pub kind: NumberType,
    pub dot: bool,
    pub errors: Seq<NumErr>,
}

/// Where reading a number literal stopped; `early` when it stopped before a
/// `..` range operator.
pub struct NumRead {
    pub end: int,
    pub early: bool,
    pub scan: NumScan,
}

impl NumScan {
    pub open spec fn start() -> NumScan {
        NumScan {
            digits: Seq::empty(),
            kind: NumberType::Decimal,
            dot: false,
            errors: Seq::empty(),
        }
    }

    pub open spec fn push(self, c: char) -> NumScan {
        NumScan { digits: self.digits.push(c), kind: self.kind, dot: self.dot, errors: self.errors }
    }

    pub open spec fn with_kind(self, k: NumberType) -> NumScan {
        NumScan { digits: self.digits, kind: k, dot: self.dot, errors: self.errors }
    }

    pub open spec fn with_error(self, e: NumErr) -> NumScan {
        NumScan { digits: self.digits, kind: self.kind, dot: self.dot, errors: self.errors.push(e) }
    }

    pub open spec fn with_dot(self) -> NumScan {
        NumScan { digits: self.digits.push('.'), kind: self.kind, dot: true, errors: self.errors }
    }
}

/// Reads a number literal from offset `j`: digits, radix prefixes (`0b`,
/// `0o`, `0x`), one decimal point and `_` separators. A binary or octal
/// digit out of range is an error and makes the literal decimal; a hex
/// letter outside a hex literal ends it, as an error except for `d`,
/// which is the days suffix. With `as_str`
/// (a number read as a property name) a `.` ends the literal.
pub open spec fn scan_num(s: Seq<char>, j: int, st: NumScan, as_str: bool) -> NumRead
    decreases s.len() - j,
{
    if j < 0 || j >= s.len() {
        NumRead { end: j, early: false, scan: st }
    } else {
        let ch = s[j];
        if ch == '0' {
            if j + 1 < s.len() && s[j + 1] == 'o' {
                scan_num(s, j + 2, st.with_kind(NumberType::Octal), as_str)
            } else if j + 1 < s.len() && s[j + 1] == 'x' {
                scan_num(s, j + 2, st.with_kind(NumberType::Hex), as_str)
            } else if j + 1 < s.len() && s[j + 1] == 'b' {
                scan_num(s, j + 2, st.with_kind(NumberType::Binary), as_str)
            } else {
                scan_num(s, j + 1, st.push('0'), as_str)
            }
        } else if '1' <= ch && ch <= '9' {
            let bad = (st.kind == NumberType::Binary && ch > '1') || (st.kind == NumberType::Octal
                && ch > '7');
            let st1 = if bad {
                st.with_error(NumErr::InvalidDigit).with_kind(NumberType::Decimal)
            } else {
                st
            };
            scan_num(s, j + 1, st1.push(ch), as_str)
        } else if ('A' <= ch && ch <= 'F') || ('a' <= ch && ch <= 'f') {
            if st.kind == NumberType::Hex {
                scan_num(s, j + 1, st.push(ch), as_str)
            } else if ch == 'd' {
                NumRead { end: j, early: false, scan: st }
            } else {
                NumRead { end: j, early: false, scan: st.with_error(NumErr::InvalidDigit) }
            }
        } else if ch == '.' {
            if as_str {
                NumRead { end: j, early: false, scan: st }
            } else if j + 1 < s.len() && s[j + 1] == '.' {
                NumRead { end: j, early: true, scan: st }
            } else if st.dot {
                NumRead { end: j + 1, early: false, scan: st.with_error(NumErr::DecimalPoint(j + 1)) }
            } else {
                scan_num(s, j + 1, st.with_dot(), as_str)
            }
        } else if ch == '_' {
            scan_num(s, j + 1, st, as_str)
        } else {
            NumRead { end: j, early: false, scan: st }
        }
    }
}

pub proof fn lemma_scan_num(s: Seq<char>, j: int, st: NumScan, as_str: bool)
    requires
        0 <= j <= s.len(),
    ensures
        j <= scan_num(s, j, st, as_str).end <= s.len(),
    decreases s.len() - j,
{
    if j < s.len() {
        let ch = s[j];
        if ch == '0' {
            if j + 1 < s.len() && (s[j + 1] == 'o' || s[j + 1] == 'x' || s[j + 1] == 'b') {
                let k = if s[j + 1] == 'o' {
                    NumberType::Octal
                } else if s[j + 1] == 'x' {
                    NumberType::Hex
                } else {
                    NumberType::Binary
                };
                lemma_scan_num(s, j + 2, st.with_kind(k), as_str);
            } else {
                lemma_scan_num(s, j + 1, st.push('0'), as_str);
            }
        } else if '1' <= ch && ch <= '9' {
            let bad = (st.kind == NumberType::Binary && ch > '1') || (st.kind == NumberType::Octal
                && ch > '7');
            let st1 = if bad {
                st.with_error(NumErr::InvalidDigit).with_kind(NumberType::Decimal)
            } else {
                st
            };
            lemma_scan_num(s, j + 1, st1.push(ch), as_str);
        } else if ('A' <= ch && ch <= 'F') || ('a' <= ch && ch <= 'f') {
            if st.kind == NumberType::Hex {
                lemma_scan_num(s, j + 1, st.push(ch), as_str);
            }
        } else if ch == '.' {
            if !as_str && !(j + 1 < s.len() && s[j + 1] == '.') && !st.dot {
                lemma_scan_num(s, j + 1, st.with_dot(), as_str);
            }
        } else if ch == '_' {
            lemma_scan_num(s, j + 1, st, as_str);
        }
    }
}

/// Only decimal digits, the first not `0`, from `j` up to `e`.
pub open spec fn plain_decimal(s: Seq<char>, j: int, e: int) -> bool {
    &&& 0 <= j < e <= s.len()
    &&& '1' <= s[j] <= '9'
    &&& forall|k: int| j < k < e ==> '0' <= #[trigger] s[k] <= '9'
}

/// A decimal integer followed by a time-unit suffix (`s`, `m`, `h`, `d`)
/// is read up to the suffix, as a decimal literal with no error: the suffix
/// is left for the caller to take.
pub proof fn lemma_scan_suffixed(s: Seq<char>, j: int, k: int, e: int, as_str: bool)
    requires
        plain_decimal(s, j, e),
        j <= k <= e,
        has_suffix(s, e),
    ensures
        scan_num(s, k, NumScan { digits: s.subrange(j, k), kind: NumberType::Decimal, dot: false, errors: Seq::empty() }, as_str)
            == (NumRead {
            end: e,
            early: false,
            scan: NumScan { digits: s.subrange(j, e), kind: NumberType::Decimal, dot: false, errors: Seq::empty() },
        }),
    decreases e - k,
{
    if k < e {
        let st = NumScan { digits: s.subrange(j, k), kind: NumberType::Decimal, dot: false, errors: Seq::empty() };
        assert(s.subrange(j, k).push(s[k]) =~= s.subrange(j, k + 1));
        if k == j {
            assert('1' <= s[k] <= '9');
        } else {
            assert('0' <= s[k] <= '9');
        }
        lemma_scan_suffixed(s, j, k + 1, e, as_str);
    }
}

/// A decimal integer with a time-unit suffix reads, without an error, as
/// its value times the suffix's factor in milliseconds (`1d` is
/// `86400000`), when that product fits in 32 bits.
pub proof fn lemma_suffixed_literal(s: Seq<char>, j: int, e: int, as_str: bool)
    requires
        plain_decimal(s, j, e),
        has_suffix(s, e),
        radix_value(s.subrange(j, e), 10) * time_factor(s[e]) <= i32::MAX,
    ensures
        ({
            let r = scan_num(s, j, NumScan::start(), as_str);
            &&& r.end == e
            &&& !r.early
            &&& r.scan.errors.len() == 0
            &&& num_token(r, time_factor(s[e])) == Some(
                TokenVal::Int((radix_value(s.subrange(j, e), 10) * time_factor(s[e])) as i32),
            )
        }),
{
    assert(s.subrange(j, j) =~= Seq::<char>::empty());
    lemma_scan_suffixed(s, j, j, e, as_str);
    let d = s.subrange(j, e);
    assert forall|k: int| 0 <= k < d.len() implies digit_value(#[trigger] d[k]) < 10 by {
        assert(d[k] == s[j + k]);
    }
}

/// The factor of a time-unit suffix: seconds, minutes, hours, days (in ms).
pub open spec fn time_factor(c: char) -> int {
    if c == 's' {
        1000
    } else if c == 'm' {
        60000
    } else if c == 'h' {
        3600000
    } else if c == 'd' {
        86400000
    } else {
        1
    }
}

/// Whether a time-unit suffix follows at `e`.
pub open spec fn has_suffix(s: Seq<char>, e: int) -> bool {
    0 <= e < s.len() && (s[e] == 's' || s[e] == 'm' || s[e] == 'h' || s[e] == 'd')
}

/// The integer token of a radix literal: its value times the factor,
/// truncated to 32 bits, when the value and the product fit in 64 bits.
pub open spec fn radix_token(d: Seq<char>, r: int, factor: int) -> Option<TokenVal> {
    if digits_in_radix(d, r) && radix_value(d, r) * factor <= i64::MAX {
        Some(TokenVal::Int((radix_value(d, r) * factor) as i32))
    } else {
        None
    }
}

/// The token a number literal denotes, or `None` when its digits are no
/// numeral or its value does not fit.
pub open spec fn num_token(r: NumRead, factor: int) -> Option<TokenVal> {
    let d = r.scan.digits;
    if r.early {
        if digits_in_radix(d, 10) && radix_value(d, 10) <= i32::MAX {
            Some(TokenVal::Int(radix_value(d, 10) as i32))
        } else {
            None
        }
    } else if r.scan.kind == NumberType::Hex {
        radix_token(d, 16, factor)
    } else if r.scan.kind == NumberType::Octal {
        radix_token(d, 8, factor)
    } else if r.scan.kind == NumberType::Binary {
        radix_token(d, 2, factor)
    } else if r.scan.dot {
        Some(TokenVal::Float(d, factor as u32))
    } else if digits_in_radix(d, 10) && radix_value(d, 10) * factor <= i32::MAX {
        Some(TokenVal::Int((radix_value(d, 10) * factor) as i32))
    } else {
        None
    }
}

/// The lexer error `e` is the one recorded for `ne` while reading a number
/// that starts at cursor `i0`, with `last` the start of the token.
pub open spec fn num_err_is(e: BaseError, ne: NumErr, i0: InputParser, last: LoC) -> bool {
    match ne {
        NumErr::InvalidDigit => error_is(
            e,
            DiagnosticId::InvalidDigit,
            Seq::empty(),
            Range { start: last, end: last },
        ),
        NumErr::DecimalPoint(j) => error_is(
            e,
            DiagnosticId::DecimalPoint,
            Seq::empty(),
            Range { start: i0.spec_loc(), end: i0.advanced((j - i0.pos()) as nat).spec_loc() },
        ),
    }
}

/// The first `*` at or after `q` that is followed by `/`, or the length
/// when there is none.
pub open spec fn block_end(s: Seq<char>, q: int) -> int
    decreases s.len() - q,
{
    if q < 0 || q >= s.len() {
        s.len() as int
    } else if s[q] == '*' && q + 1 < s.len() && s[q + 1] == '/' {
        q
    } else {
        block_end(s, q + 1)
    }
}

pub proof fn lemma_block_end(s: Seq<char>, q: int)
    requires
        0 <= q <= s.len(),
    ensures
        q <= block_end(s, q) <= s.len(),
        block_end(s, q) < s.len() ==> s[block_end(s, q)] == '*' && block_end(s, q) + 1 < s.len()
            && s[block_end(s, q) + 1] == '/',
    decreases s.len() - q,
{
    if q < s.len() && !(s[q] == '*' && q + 1 < s.len() && s[q + 1] == '/') {
        lemma_block_end(s, q + 1);
    }
}

/// What the lexer skips from offset `j` before a token: whitespace, line
/// comments and block comments. The result is the offset where it stops,
/// the offset of the last item it entered (where the next token's range
/// starts; -1 when it entered none) and whether it yields no token there:
/// at the end of the input, at a lone `/` that ends the input, or in a
/// comment that runs to the end.
pub open spec fn skip_trivia(s: Seq<char>, j: int) -> (int, int, bool)
    decreases s.len() - j,
{
    if j < 0 || j >= s.len() {
        (j, -1, true)
    } else if s[j] == '/' && j + 1 >= s.len() {
        (j, j, true)
    } else if s[j] == '/' && s[j + 1] == '/' {
        let q = find_char(s, j + 2, '\n');
        if q < s.len() {
            proof {
                lemma_find_char(s, j + 2, '\n');
            }
            let r = skip_trivia(s, q + 1);
            (r.0, if r.1 == -1 { j } else { r.1 }, r.2)
        } else {
            (s.len() as int, j, true)
        }
    } else if s[j] == '/' && s[j + 1] == '*' {
        let q = block_end(s, j + 1);
        if q < s.len() {
            proof {
                lemma_block_end(s, j + 1);
            }
            let r = skip_trivia(s, q + 2);
            (r.0, if r.1 == -1 { j } else { r.1 }, r.2)
        } else {
            (s.len() as int, j, true)
        }
    } else if is_space_char(s[j]) {
        let r = skip_trivia(s, j + 1);
        (r.0, if r.1 == -1 { j } else { r.1 }, r.2)
    } else {
        (j, j, false)
    }
}

pub proof fn lemma_skip_trivia(s: Seq<char>, j: int)
    requires
        0 <= j <= s.len(),
    ensures
        j <= skip_trivia(s, j).0 <= s.len(),
        !skip_trivia(s, j).2 ==> skip_trivia(s, j).0 < s.len() && skip_trivia(s, j).1
            == skip_trivia(s, j).0 && !is_space_char(s[skip_trivia(s, j).0]),
        skip_trivia(s, j).1 == -1 || j <= skip_trivia(s, j).1 <= skip_trivia(s, j).0,
        skip_trivia(s, j).1 == -1 <==> j == s.len(),
    decreases s.len() - j,
{
    if j < s.len() {
        if s[j] == '/' && j + 1 >= s.len() {
        } else if s[j] == '/' && s[j + 1] == '/' {
            lemma_find_char(s, j + 2, '\n');
            let q = find_char(s, j + 2, '\n');
            if q < s.len() {
                lemma_skip_trivia(s, q + 1);
            }
        } else if s[j] == '/' && s[j + 1] == '*' {
            lemma_block_end(s, j + 1);
            let q = block_end(s, j + 1);
            if q < s.len() {
                lemma_skip_trivia(s, q + 2);
            }
        } else if is_space_char(s[j]) {
            lemma_skip_trivia(s, j + 1);
        }
    }
}

/// Characters that start a token.
pub open spec fn is_lexeme_start(c: char) -> bool {
    c == '\'' || c == '"' || c == '`' || is_digit_char(c) || is_op_char(c) || is_punc_char(c)
        || is_ident_start(c)
}

/// The token `t` read from cursor `ik` leaves the cursor at `out`; `last`
/// is where the token starts and `as_str` whether numbers are read as
/// property names.
pub open spec fn lexed(ik: InputParser, last: LoC, as_str: bool, out: InputParser, t: Token) -> bool {
    let s = ik.code();
    let k = ik.pos() as int;
    let c = s[k];
    let here = Range { start: ik.spec_loc(), end: out.spec_loc() };
    if c == '\'' {
        &&& out == ik.advanced(3)
        &&& t.val@ == TokenVal::Char(if k + 1 >= s.len() { '_' } else { s[k + 1] })
        &&& t.range == here
    } else if c == '"' {
        let q = find_char(s, k + 1, '"');
        let e = if q < s.len() { q + 1 } else { s.len() as int };
        &&& out == ik.advanced((e - k) as nat)
        &&& t.val@ == TokenVal::Str(s.subrange(k + 1, q))
        &&& t.range == here
    } else if c == '`' {
        &&& out == ik.step()
        &&& t.val@ == TokenVal::TempStrStart
        &&& t.range == (Range { start: last, end: last })
    } else if is_digit_char(c) {
        let r = scan_num(s, k, NumScan::start(), as_str);
        let suffixed = !r.early && has_suffix(s, r.end);
        let e = if suffixed { r.end + 1 } else { r.end };
        let factor = if suffixed { time_factor(s[r.end]) } else { 1 };
        &&& out == ik.advanced((e - k) as nat)
        &&& t.val@ == (match num_token(r, factor) {
            Some(v) => v,
            None => TokenVal::Int(0),
        })
        &&& t.range == here
    } else if is_op_char(c) {
        let e = op_end(s, k, k);
        &&& out == ik.advanced((e - k) as nat)
        &&& t.val@ == TokenVal::Op(s.subrange(k, e))
        &&& t.range == here
    } else if is_punc_char(c) {
        &&& out == ik.step()
        &&& t.val@ == TokenVal::Punc(c)
        &&& t.range == (Range { start: ik.spec_loc(), end: ik.spec_loc() })
    } else if is_ident_start(c) {
        let e = ident_end(s, k);
        &&& out == ik.advanced((e - k) as nat)
        &&& t.val@ == word_token(s.subrange(k, e))
        &&& t.range == here
    } else {
        false
    }
}

/// Characters that look like punctuation and are refused: the character's
/// description and the description of what it resembles.
pub open spec fn confusable_names(c: char) -> Option<(Seq<char>, Seq<char>)> {
    if c == '\u{37e}' {
        Some(("\u{37e} (Greek question mark)"@, "; (semicolon)"@))
    } else if c == '\u{201a}' {
        Some(("\u{201a} (low-9 quatation mark)"@, ", (comma)"@))
    } else if c == '\u{66b}' {
        Some(("\u{201a} (arabic decimal separator)"@, ", (comma)"@))
    } else if c == '\u{ff1a}' {
        Some(("\u{ff1a} (fullwidth colon)"@, ": (colon)"@))
    } else if c == '\u{589}' {
        Some(("\u{ff1a} (armenian full stop)"@, ": (colon)"@))
    } else if c == '\u{2236}' {
        Some(("\u{2236} (ratio)"@, ": (colon)"@))
    } else if c == '\u{ff01}' {
        Some(("\u{ff01} (fullwidth exclamation mark)"@, "! (exclamation mark)"@))
    } else if c == '\u{1c3}' {
        Some(("\u{1c3} (latin letter retroflex click)"@, "! (exclamation mark)"@))
    } else if c == '\u{2024}' {
        Some(("\u{2024} (one dot leader)"@, ". (full stop)"@))
    } else {
        None
    }
}

/// The error recorded for a character that starts no token, at location `l`.
pub open spec fn bad_char_error(e: BaseError, c: char, l: LoC) -> bool {
    match confusable_names(c) {
        Some(names) => error_is(
            e,
            DiagnosticId::Confusable,
            seq![names.0, names.1],
            Range { start: l, end: l },
        ),
        None => error_is(e, DiagnosticId::InvalidChar, seq![seq![c]], Range { start: l, end: l }),
    }
}

/// The confusable-character message for a pair of descriptions.
fn confusable_msg(a: &str, b: &str) -> (s: String)
    ensures
        s@ == formatted(diagnostic_text(DiagnosticId::Confusable), seq![a@, b@]),
{
    proof {
        lemma_diagnostic_placeholders(DiagnosticId::Confusable);
    }
    let vars = vec![a, b];
    assert(str_views(vars@) =~= seq![a@, b@]);
    format_diagnostic(&Diagnostics::get(DiagnosticId::Confusable), vars)
}

/// The reserved words.
pub open spec fn is_keyword(t: Seq<char>) -> bool {
    ||| t == "main"@
    ||| t == "let"@
    ||| t == "for"@
    ||| t == "while"@
    ||| t == "if"@
    ||| t == "else"@
    ||| t == "enum"@
    ||| t == "struct"@
    ||| t == "fn"@
    ||| t == "type"@
    ||| t == "const"@
    ||| t == "yield"@
    ||| t == "match"@
    ||| t == "static"@
    ||| t == "new"@
    ||| t == "private"@
    ||| t == "export"@
    ||| t == "import"@
    ||| t == "as"@
    ||| t == "await"@
    ||| t == "impl"@
    ||| t == "in"@
    ||| t == "from"@
}

/// The token an identifier-like word denotes.
pub open spec fn word_token(t: Seq<char>) -> TokenVal {
    if t == "true"@ {
        TokenVal::Bool(true)
    } else if t == "false"@ {
        TokenVal::Bool(false)
    } else if t == "none"@ {
        TokenVal::NoneValue
    } else if is_keyword(t) {
        TokenVal::Kw(t)
    } else {
        TokenVal::Var(t)
    }
}

/// The words the language reserves.
pub open spec fn reserved_words() -> Seq<Seq<char>> {
    seq!["main"@, "let"@, "for"@, "while"@, "if"@, "else"@, "enum"@, "struct"@, "fn"@, "type"@, "const"@, "yield"@, "match"@, "static"@, "new"@, "private"@, "export"@, "import"@, "as"@, "await"@, "impl"@, "in"@, "from"@]
}

/// A reserved word reads as a keyword, never as an identifier; `true`,
/// `false` and `none` read as their values; any other word reads as an
/// identifier.
pub proof fn lemma_reserved_words(w: Seq<char>)
    ensures
        reserved_words().contains(w) ==> word_token(w) == TokenVal::Kw(w),
        !reserved_words().contains(w) && w != "true"@ && w != "false"@ && w != "none"@ ==> word_token(w)
            == TokenVal::Var(w),
        w == "true"@ ==> word_token(w) == TokenVal::Bool(true),
        w == "false"@ ==> word_token(w) == TokenVal::Bool(false),
        w == "none"@ ==> word_token(w) == TokenVal::NoneValue,
{
    reveal_strlit("main");
    reveal_strlit("let");
    reveal_strlit("for");
    reveal_strlit("while");
    reveal_strlit("if");
    reveal_strlit("else");
    reveal_strlit("enum");
    reveal_strlit("struct");
    reveal_strlit("fn");
    reveal_strlit("type");
    reveal_strlit("const");
    reveal_strlit("yield");
    reveal_strlit("match");
    reveal_strlit("static");
    reveal_strlit("new");
    reveal_strlit("private");
    reveal_strlit("export");
    reveal_strlit("import");
    reveal_strlit("as");
    reveal_strlit("await");
    reveal_strlit("impl");
    reveal_strlit("in");
    reveal_strlit("from");
    reveal_strlit("true");
    reveal_strlit("false");
    reveal_strlit("none");
    assert(("main"@)[0] != ("true"@)[0]);
    assert(("main"@).len() != ("false"@).len());
    assert(("main"@)[0] != ("none"@)[0]);
    assert(("let"@).len() != ("true"@).len());
    assert(("let"@).len() != ("false"@).len());
    assert(("let"@).len() != ("none"@).len());
    assert(("for"@).len() != ("true"@).len());
    assert(("for"@).len() != ("false"@).len());
    assert(("for"@).len() != ("none"@).len());
    assert(("while"@).len() != ("true"@).len());
    assert(("while"@)[0] != ("false"@)[0]);
    assert(("while"@).len() != ("none"@).len());
    assert(("if"@).len() != ("true"@).len());
    assert(("if"@).len() != ("false"@).len());
    assert(("if"@).len() != ("none"@).len());
    assert(("else"@)[0] != ("true"@)[0]);
    assert(("else"@).len() != ("false"@).len());
    assert(("else"@)[0] != ("none"@)[0]);
    assert(("enum"@)[0] != ("true"@)[0]);
    assert(("enum"@).len() != ("false"@).len());
    assert(("enum"@)[0] != ("none"@)[0]);
    assert(("struct"@).len() != ("true"@).len());
    assert(("struct"@).len() != ("false"@).len());
    assert(("struct"@).len() != ("none"@).len());
    assert(("fn"@).len() != ("true"@).len());
    assert(("fn"@).len() != ("false"@).len());
    assert(("fn"@).len() != ("none"@).len());
    assert(("type"@)[1] != ("true"@)[1]);
    assert(("type"@).len() != ("false"@).len());
    assert(("type"@)[0] != ("none"@)[0]);
    assert(("const"@).len() != ("true"@).len());
    assert(("const"@)[0] != ("false"@)[0]);
    assert(("const"@).len() != ("none"@).len());
    assert(("yield"@).len() != ("true"@).len());
    assert(("yield"@)[0] != ("false"@)[0]);
    assert(("yield"@).len() != ("none"@).len());
    assert(("match"@).len() != ("true"@).len());
    assert(("match"@)[0] != ("false"@)[0]);
    assert(("match"@).len() != ("none"@).len());
    assert(("static"@).len() != ("true"@).len());
    assert(("static"@).len() != ("false"@).len());
    assert(("static"@).len() != ("none"@).len());
    assert(("new"@).len() != ("true"@).len());
    assert(("new"@).len() != ("false"@).len());
    assert(("new"@).len() != ("none"@).len());
    assert(("private"@).len() != ("true"@).len());
    assert(("private"@).len() != ("false"@).len());
    assert(("private"@).len() != ("none"@).len());
    assert(("export"@).len() != ("true"@).len());
    assert(("export"@).len() != ("false"@).len());
    assert(("export"@).len() != ("none"@).len());
    assert(("import"@).len() != ("true"@).len());
    assert(("import"@).len() != ("false"@).len());
    assert(("import"@).len() != ("none"@).len());
    assert(("as"@).len() != ("true"@).len());
    assert(("as"@).len() != ("false"@).len());
    assert(("as"@).len() != ("none"@).len());
    assert(("await"@).len() != ("true"@).len());
    assert(("await"@)[0] != ("false"@)[0]);
    assert(("await"@).len() != ("none"@).len());
    assert(("impl"@)[0] != ("true"@)[0]);
    assert(("impl"@).len() != ("false"@).len());
    assert(("impl"@)[0] != ("none"@)[0]);
    assert(("in"@).len() != ("true"@).len());
    assert(("in"@).len() != ("false"@).len());
    assert(("in"@).len() != ("none"@).len());
    assert(("from"@)[0] != ("true"@)[0]);
    assert(("from"@).len() != ("false"@).len());
    assert(("from"@)[0] != ("none"@)[0]);
    assert(("true"@).len() != ("false"@).len());
    assert(("true"@)[0] != ("none"@)[0]);
    assert(("false"@).len() != ("true"@).len());
    assert(("false"@).len() != ("none"@).len());
    assert(("none"@)[0] != ("true"@)[0]);
    assert(("none"@).len() != ("false"@).len());
    let r = reserved_words();
    if r.contains(w) {
        let i = choose|i: int| 0 <= i < r.len() && r[i] == w;
        assert(is_keyword(w));
    } else {
        assert(r[0] == "main"@);
        assert(r[1] == "let"@);
        assert(r[2] == "for"@);
        assert(r[3] == "while"@);
        assert(r[4] == "if"@);
        assert(r[5] == "else"@);
        assert(r[6] == "enum"@);
        assert(r[7] == "struct"@);
        assert(r[8] == "fn"@);
        assert(r[9] == "type"@);
        assert(r[10] == "const"@);
        assert(r[11] == "yield"@);
        assert(r[12] == "match"@);
        assert(r[13] == "static"@);
        assert(r[14] == "new"@);
        assert(r[15] == "private"@);
        assert(r[16] == "export"@);
        assert(r[17] == "import"@);
        assert(r[18] == "as"@);
        assert(r[19] == "await"@);
        assert(r[20] == "impl"@);
        assert(r[21] == "in"@);
        assert(r[22] == "from"@);
        assert(!is_keyword(w));
    }
}

fn keyword(t: &str) -> (r: bool)
    ensures
        r == is_keyword(t@),
{
    str_eq(t, "main") || str_eq(t, "let") || str_eq(t, "for") || str_eq(t, "while") || str_eq(
        t,
        "if",
    ) || str_eq(t, "else") || str_eq(t, "enum") || str_eq(t, "struct") || str_eq(t, "fn")
        || str_eq(t, "type") || str_eq(t, "const") || str_eq(t, "yield") || str_eq(t, "match")
        || str_eq(t, "static") || str_eq(t, "new") || str_eq(t, "private") || str_eq(t, "export")
        || str_eq(t, "import") || str_eq(t, "as") || str_eq(t, "await") || str_eq(t, "impl")
        || str_eq(t, "in") || str_eq(t, "from")
}


/// The integer a radix literal denotes (see [`radix_token`]).
fn radix_literal(d: &Vec<char>, radix: u64, factor: u64) -> (r: Option<i32>)
    requires
        2 <= radix <= 16,
        1 <= factor,
    ensures
        r is Some <==> radix_token(d@, radix as int, factor as int) is Some,
        r is Some ==> radix_token(d@, radix as int, factor as int) == Some(TokenVal::Int(r->0)),
{
    proof {
        crate::numeric::lemma_radix_value_nonneg(d@, radix as int);
    }
    match numeral_value(d, radix, 9223372036854775807) {
        Some(v) => {
            assert(v == radix_value(d@, radix as int));
            match v.checked_mul(factor) {
                Some(w) => {
                    if w <= 9223372036854775807 {
                        Some(w as i32)
                    } else {
                        None
                    }
                },
                None => None,
            }
        },
        None => {
            proof {
                if digits_in_radix(d@, radix as int) {
                    let v = radix_value(d@, radix as int);
                    assert(v * factor >= v) by (nonlinear_arith)
                        requires
                            v >= 0,
                            factor >= 1,
                    ;
                }
                crate::numeric::lemma_radix_value_nonneg(d@, radix as int);
            }
            None
        },
    }
}

/// The integer a decimal literal denotes: its value times the factor, when
/// that fits in 32 bits.
fn decimal_literal(d: &Vec<char>, factor: u64) -> (r: Option<i32>)
    requires
        1 <= factor <= 86400000,
    ensures
        r is Some <==> (digits_in_radix(d@, 10) && radix_value(d@, 10) * factor <= i32::MAX),
        r is Some ==> r->0 == radix_value(d@, 10) * factor,
{
    proof {
        crate::numeric::lemma_radix_value_nonneg(d@, 10);
    }
    match numeral_value(d, 10, 2147483647) {
        Some(v) => {
            assert(v * factor <= 2147483647 * 86400000) by (nonlinear_arith)
                requires
                    v <= 2147483647,
                    factor <= 86400000,
            ;
            let w = v * factor;
            if w <= 2147483647 {
                Some(w as i32)
            } else {
                None
            }
        },
        None => {
            proof {
                if digits_in_radix(d@, 10) {
                    let v = radix_value(d@, 10);
                    assert(v * factor >= v) by (nonlinear_arith)
                        requires
                            v >= 0,
                            factor >= 1,
                    ;
                }
            }
            None
        },
    }
}


/// Recording one more number error keeps the earlier ones in place.
proof fn lemma_push_num_error(
    before: Seq<BaseError>,
    e: BaseError,
    n0: int,
    errs: Seq<NumErr>,
    ne: NumErr,
    i0: InputParser,
    last: LoC,
)
    requires
        0 <= n0,
        before.len() == n0 + errs.len(),
        forall|k: int| 0 <= k < errs.len() ==> num_err_is(#[trigger] before[n0 + k], errs[k], i0, last),
        num_err_is(e, ne, i0, last),
    ensures
        before.push(e).take(n0) == before.take(n0),
        before.push(e).len() == n0 + errs.push(ne).len(),
        forall|k: int|
            0 <= k < errs.push(ne).len() ==> num_err_is(
                #[trigger] before.push(e)[n0 + k],
                errs.push(ne)[k],
                i0,
                last,
            ),
{
    assert(before.push(e).take(n0) =~= before.take(n0));
    assert forall|k: int| 0 <= k < errs.push(ne).len() implies num_err_is(
        #[trigger] before.push(e)[n0 + k],
        errs.push(ne)[k],
        i0,
        last,
    ) by {
        if k < errs.len() {
            assert(before.push(e)[n0 + k] == before[n0 + k]);
        }
    }
}


/// The errors recorded after offset `n0`, seen as the added part.
proof fn lemma_num_errors_added(
    all: Seq<BaseError>,
    n0: int,
    errs: Seq<NumErr>,
    i0: InputParser,
    last: LoC,
)
    requires
        0 <= n0,
        all.len() >= n0 + errs.len(),
        forall|k: int| 0 <= k < errs.len() ==> num_err_is(#[trigger] all[n0 + k], errs[k], i0, last),
    ensures
        all.skip(n0).len() == all.len() - n0,
        forall|k: int|
            0 <= k < errs.len() ==> num_err_is(#[trigger] all.skip(n0)[k], errs[k], i0, last),
{
    assert forall|k: int| 0 <= k < errs.len() implies num_err_is(
        #[trigger] all.skip(n0)[k],
        errs[k],
        i0,
        last,
    ) by {
        assert(all.skip(n0)[k] == all[n0 + k]);
    }
}


/// Resuming the skip of `skip_trivia` at `k` from a cursor that moved
/// there from `i0` lands on the same cursors as moving from `i0` directly.
proof fn lemma_resume_trivia(i0: InputParser, k: int)
    requires
        i0.wf(),
        i0.pos() <= k <= i0.code().len(),
    ensures
        ({
            let s = i0.code();
            let p = i0.pos() as int;
            let tr = skip_trivia(s, k);
            let ik = i0.advanced((k - p) as nat);
            &&& ik.advanced((tr.0 - k) as nat) == i0.advanced((tr.0 - p) as nat)
            &&& tr.1 >= 0 ==> ik.advanced((tr.1 - k) as nat) == i0.advanced((tr.1 - p) as nat)
        }),
{
    let s = i0.code();
    let p = i0.pos() as int;
    lemma_skip_trivia(s, k);
    let tr = skip_trivia(s, k);
    i0.lemma_advanced_add((k - p) as nat, (tr.0 - k) as nat);
    if tr.1 >= 0 {
        i0.lemma_advanced_add((k - p) as nat, (tr.1 - k) as nat);
    }
}


/// A token that starts at `k` ends after `k`.
proof fn lemma_lexeme_progress(s: Seq<char>, k: int, as_str: bool)
    requires
        0 <= k < s.len(),
        is_lexeme_start(s[k]),
    ensures
        is_digit_char(s[k]) ==> scan_num(s, k, NumScan::start(), as_str).end > k,
        is_op_char(s[k]) ==> op_end(s, k, k) > k,
        is_ident_start(s[k]) ==> ident_end(s, k) > k,
        s[k] == '"' ==> find_char(s, k + 1, '"') >= k + 1,
        ident_end(s, k) <= s.len(),
        op_end(s, k, k) <= s.len(),
        scan_num(s, k, NumScan::start(), as_str).end <= s.len(),
        find_char(s, k + 1, '"') <= s.len(),
{
    reveal_strlit("<>");
    reveal_strlit("?");
    reveal_strlit(">");
    lemma_ident_end(s, k);
    lemma_op_end(s, k, k);
    lemma_scan_num(s, k, NumScan::start(), as_str);
    lemma_find_char(s, k + 1, '"');
    if is_ident_start(s[k]) {
        lemma_ident_end(s, k + 1);
    }
    if is_op_char(s[k]) {
        assert(s.subrange(k, k).len() == 0);
        lemma_op_end(s, k, k + 1);
    }
    if is_digit_char(s[k]) {
        let st = NumScan::start();
        if s[k] == '0' {
            if k + 1 < s.len() && (s[k + 1] == 'o' || s[k + 1] == 'x' || s[k + 1] == 'b') {
                lemma_scan_num(s, k + 2, st.with_kind(NumberType::Octal), as_str);
                lemma_scan_num(s, k + 2, st.with_kind(NumberType::Hex), as_str);
                lemma_scan_num(s, k + 2, st.with_kind(NumberType::Binary), as_str);
            } else {
                lemma_scan_num(s, k + 1, st.push('0'), as_str);
            }
        } else {
            lemma_scan_num(s, k + 1, st.push(s[k]), as_str);
        }
    }
}


/// Whether `c` occurs in `v`.
fn contains_char(v: &[char], c: char) -> (r: bool)
    ensures
        r == v@.contains(c),
{
    let mut i: usize = 0;
    while i < v.len()
        invariant
            i <= v.len(),
            forall|k: int| 0 <= k < i ==> v@[k] != c,
        decreases v.len() - i,
    {
        if v[i] == c {
            assert(v@[i as int] == c);
            return true;
        }
        i = i + 1;
    }
    false
}

/// The text `one of (a), (b), (c)` for the characters of `p`.
fn one_of(p: &[char]) -> (s: String)
    ensures
        s@ == one_of_text(p@),
{
    let mut list = String::new();
    let mut i: usize = 0;
    while i < p.len()
        invariant
            i <= p.len(),
            list@ == paren_list(p@.take(i as int)),
        decreases p.len() - i,
    {
        let ghost before = list@;
        if i > 0 {
            push_char(&mut list, ',');
            push_char(&mut list, ' ');
        }
        push_char(&mut list, '(');
        push_char(&mut list, p[i]);
        push_char(&mut list, ')');
        proof {
            let q = p@.take(i + 1);
            assert(q.drop_last() =~= p@.take(i as int));
            if i == 0 {
                assert(list@ =~= paren_list(q));
            } else {
                assert(list@ =~= paren_list(q));
            }
        }
        i = i + 1;
    }
    assert(p@.take(p.len() as int) =~= p@);
    let mut s = to_owned_string("one of ");
    s.append(list.as_str());
    s
}

// ---------------------------------------------------------------------------
// The tokenizer
// ---------------------------------------------------------------------------

/// The lexer state: the input cursor, one token of look-ahead and the
/// errors found so far.
pub struct Tokenizer {
    pub current: Option<Token>,
    pub filename: String,
    pub errors: Vec<BaseError>,
    pub input: InputParser,
    pub is_last_num_as_str: bool,
    pub last_loc: LoC,
}

/// `b` differs from `a` only in its input cursor.
pub open spec fn only_input_moved(a: Tokenizer, b: Tokenizer) -> bool {
    &&& b.current == a.current
    &&& b.filename == a.filename
    &&& b.errors == a.errors
    &&& b.is_last_num_as_str == a.is_last_num_as_str
    &&& b.last_loc == a.last_loc
}

/// `b` differs from `a` only in its input cursor and its errors.
pub open spec fn only_input_and_errors_moved(a: Tokenizer, b: Tokenizer) -> bool {
    &&& b.current == a.current
    &&& b.filename == a.filename
    &&& b.is_last_num_as_str == a.is_last_num_as_str
    &&& b.last_loc == a.last_loc
}

pub proof fn lemma_adv(i: InputParser, n: nat)
    requires
        i.wf(),
    ensures
        i.advanced(n).wf(),
        i.advanced(n).code() == i.code(),
        i.pos() + n <= i.code().len() ==> i.advanced(n).pos() == i.pos() + n,
        i.advanced(n).step() == i.advanced(n + 1),
{
    i.lemma_advanced(n);
    i.lemma_advanced_step(n);
}

/// `b` is `a` after the next token was put in the look-ahead slot (if
/// there is one).
pub open spec fn peeked(a: Tokenizer, b: Tokenizer) -> bool {
    if a.current is Some {
        b == a
    } else {
        lex_step(a, b, b.current)
    }
}

/// `b` is `a` after its next token `t` was taken.
pub open spec fn taken(a: Tokenizer, b: Tokenizer, t: Token) -> bool {
    &&& b.current is None
    &&& if a.current is Some {
        &&& a.current == Some(t)
        &&& b.input == a.input
        &&& b.errors == a.errors
        &&& b.last_loc == a.last_loc
        &&& b.filename == a.filename
        &&& b.is_last_num_as_str == a.is_last_num_as_str
    } else {
        lex_read(a, b, Some(t))
    }
}

/// The text naming a list of punctuation characters: `(a), (b), (c)`.
pub open spec fn paren_list(p: Seq<char>) -> Seq<char>
    decreases p.len(),
{
    if p.len() == 0 {
        Seq::empty()
    } else if p.len() == 1 {
        seq!['(', p[0], ')']
    } else {
        paren_list(p.drop_last()) + seq![',', ' ', '(', p.last(), ')']
    }
}

/// `one of (a), (b), (c)`: what is expected when one of `p` must follow.
pub open spec fn one_of_text(p: Seq<char>) -> Seq<char> {
    "one of "@ + paren_list(p)
}

/// Taking the token that a peek put in the look-ahead slot is taking the
/// next token.
pub proof fn lemma_take_after_peek(a: Tokenizer, mid: Tokenizer, b: Tokenizer, t: Token)
    requires
        peeked(a, mid),
        mid.current is Some,
        taken(mid, b, t),
    ensures
        taken(a, b, t),
{
}

/// The errors `added` that reading the lexeme at cursor `ik` records, with
/// `last` the start of the token, `as_str` the number mode and `out` the
/// cursor after it: a character literal that is empty or unclosed, a string
/// without its closing quote, a number (the errors of its scan, and one
/// more when it denotes no value) and a refused operator add errors; every
/// other lexeme adds none.
#[verifier::opaque]
pub open spec fn lexeme_errors(
    ik: InputParser,
    last: LoC,
    as_str: bool,
    out: InputParser,
    added: Seq<BaseError>,
) -> bool {
    let s = ik.code();
    let k = ik.pos() as int;
    let c = s[k];
    let here = Range { start: ik.spec_loc(), end: out.spec_loc() };
    if c == '\'' {
        let empty = k + 1 >= s.len();
        let unclosed = k + 2 >= s.len() || s[k + 2] != '\'';
        &&& added.len() == (if empty { 1int } else { 0 }) + (if unclosed { 1int } else { 0 })
        &&& empty ==> error_is(added[0], DiagnosticId::EmptyCharLiteral, Seq::empty(), Range { start: last, end: last })
        &&& unclosed ==> error_is(added.last(), DiagnosticId::OneCharEndpoint, Seq::empty(), Range { start: ik.spec_loc(), end: last })
    } else if c == '"' {
        if find_char(s, k + 1, '"') < s.len() {
            added.len() == 0
        } else {
            added.len() == 1 && error_is(
                added[0],
                DiagnosticId::EndOfStr,
                Seq::empty(),
                Range { start: ik.spec_loc(), end: last },
            )
        }
    } else if is_digit_char(c) {
        let r = scan_num(s, k, NumScan::start(), as_str);
        let suffixed = !r.early && has_suffix(s, r.end);
        let factor = if suffixed { time_factor(s[r.end]) } else { 1 };
        let tok = num_token(r, factor);
        &&& added.len() == r.scan.errors.len() + (if tok is None { 1int } else { 0 })
        &&& forall|j: int| 0 <= j < r.scan.errors.len() ==> num_err_is(#[trigger] added[j], r.scan.errors[j], ik, last)
        &&& tok is None ==> error_is(added.last(), DiagnosticId::InvalidDigit, Seq::empty(), here)
    } else if is_op_char(c) {
        if op_refused(s, k) {
            added.len() == 1 && error_is(
                added[0],
                DiagnosticId::UnexpectedOp,
                seq![s.subrange(k, op_end(s, k, k))],
                here,
            )
        } else {
            added.len() == 0
        }
    } else {
        added.len() == 0
    }
}

/// One step of the lexer from state `a` to state `b` yielding `r`: what
/// [`Tokenizer::_next`] does (the look-ahead slot aside), including the
/// errors the lexeme it reads records.
pub open spec fn lex_step(a: Tokenizer, b: Tokenizer, r: Option<Token>) -> bool {
    &&& lex_read(a, b, r)
    &&& ({
        let s = a.input.code();
        let p = a.input.pos() as int;
        let tr = skip_trivia(s, p);
        let ik = a.input.advanced((tr.0 - p) as nat);
        !tr.2 && is_lexeme_start(s[tr.0]) ==> lexeme_errors(
            ik,
            b.last_loc,
            a.is_last_num_as_str,
            b.input,
            b.errors@.skip(a.errors@.len() as int),
        )
    })
}

/// One step of the lexer from state `a` to state `b` yielding `r`, as far
/// as what it reads goes: the cursor, the token and the start of the last
/// token; of the errors, only that the earlier ones stay and what a
/// character that starts no token records.
pub open spec fn lex_read(a: Tokenizer, b: Tokenizer, r: Option<Token>) -> bool {
    &&& b.filename == a.filename
    &&& b.is_last_num_as_str == a.is_last_num_as_str
    &&& b.input.code() == a.input.code()
    &&& b.errors@.len() >= a.errors@.len()
    &&& b.errors@.take(a.errors@.len() as int) == a.errors@
    &&& b.input.pos() >= a.input.pos()
    &&& r is Some ==> b.input.pos() > a.input.pos()
    &&& ({
        let s = a.input.code();
        let i0 = a.input;
        let p = i0.pos() as int;
        let tr = skip_trivia(s, p);
        let k = tr.0;
        let ik = i0.advanced((k - p) as nat);
        &&& b.last_loc == (if tr.1 >= 0 {
            i0.advanced((tr.1 - p) as nat).spec_loc()
        } else {
            a.last_loc
        })
        &&& tr.2 ==> r is None && b.input == ik && b.errors@ == a.errors@
        &&& !tr.2 && is_lexeme_start(s[k]) ==> r is Some && lexed(
            ik,
            b.last_loc,
            a.is_last_num_as_str,
            b.input,
            r->0,
        )
        &&& !tr.2 && !is_lexeme_start(s[k]) ==> {
            &&& r is None
            &&& b.input == ik.step()
            &&& b.errors@.len() == a.errors@.len() + 1
            &&& bad_char_error(b.errors@.last(), s[k], ik.spec_loc())
        }
    })
}

/// Nothing is left of the input that could yield a token: the cursor is at
/// the end, or before a lone `/` that ends the input.
pub open spec fn input_spent(t: Tokenizer) -> bool {
    let s = t.input.code();
    let p = t.input.pos() as int;
    p >= s.len() || (p + 1 == s.len() && s[p] == '/')
}

/// Where the skipped trivia yield no token, they stop at the end of the
/// input or at a lone `/` that ends it.
pub proof fn lemma_skip_trivia_spent(s: Seq<char>, j: int)
    requires
        0 <= j <= s.len(),
    ensures
        skip_trivia(s, j).2 ==> skip_trivia(s, j).0 == s.len() || (skip_trivia(s, j).0 + 1
            == s.len() && s[skip_trivia(s, j).0] == '/'),
    decreases s.len() - j,
{
    if j < s.len() {
        if s[j] == '/' && j + 1 >= s.len() {
        } else if s[j] == '/' && s[j + 1] == '/' {
            lemma_find_char(s, j + 2, '\n');
            let q = find_char(s, j + 2, '\n');
            if q < s.len() {
                lemma_skip_trivia_spent(s, q + 1);
            }
        } else if s[j] == '/' && s[j + 1] == '*' {
            lemma_block_end(s, j + 1);
            let q = block_end(s, j + 1);
            if q < s.len() {
                lemma_skip_trivia_spent(s, q + 2);
            }
        } else if is_space_char(s[j]) {
            lemma_skip_trivia_spent(s, j + 1);
        }
    }
}

/// A lexer step that yields no token either records an error or leaves the
/// input spent.
pub proof fn lemma_lex_none(a: Tokenizer, b: Tokenizer)
    requires
        a.wf(),
        lex_step(a, b, None),
    ensures
        input_spent(b) || b.errors@.len() > a.errors@.len(),
{
    let s = a.input.code();
    let p = a.input.pos() as int;
    lemma_skip_trivia(s, p);
    lemma_skip_trivia_spent(s, p);
    let k = skip_trivia(s, p).0;
    lemma_adv(a.input, (k - p) as nat);
}

impl Tokenizer {
    /// The lexer is sound: its cursor is well formed.
    pub open spec fn wf(&self) -> bool {
        self.input.wf()
    }

    /// A measure of the work left: twice the characters not yet read, plus
    /// one for a token held in the look-ahead slot. Every token handed out
    /// lowers it.
    pub open spec fn remaining(&self) -> nat {
        (2 * (self.input.code().len() - self.input.pos()) + if self.current is Some {
            1int
        } else {
            0
        }) as nat
    }

    /// `b` is `a` after zero or more lexer steps: the same source and
    /// settings, errors only added, no more work left.
    pub open spec fn moved_on(a: Tokenizer, b: Tokenizer) -> bool {
        &&& b.wf()
        &&& b.filename == a.filename
        &&& b.input.code() == a.input.code()
        &&& b.input.pos() >= a.input.pos()
        &&& b.errors@.len() >= a.errors@.len()
        &&& forall|i: int| 0 <= i < a.errors@.len() ==> #[trigger] b.errors@[i] == a.errors@[i]
        &&& b.remaining() <= a.remaining()
    }

    /// A lexer at the start of `code`.
    pub fn new(code: &str, filename: String) -> (t: Self)
        requires
            code@.len() < usize::MAX,
        ensures
            t.wf(),
            t.current is None,
            t.errors@.len() == 0,
            t.input.code() == code@,
            t.input.pos() == 0,
            t.is_last_num_as_str == false,
            t.last_loc == (LoC { line: 0, col: 0, pos: 0 }),
            t.filename == filename,
    {
        Tokenizer {
            current: None,
            errors: Vec::new(),
            is_last_num_as_str: false,
            input: InputParser::new(code),
            last_loc: LoC { line: 0, col: 0, pos: 0 },
            filename,
        }
    }

    /// Takes the next token: the one held in the look-ahead slot, or a fresh
    /// one from the input.
    pub fn consume(&mut self) -> (r: Option<Token>)
        requires
            old(self).wf(),
        ensures
            final(self).wf(),
            final(self).current is None,
            final(self).is_last_num_as_str == old(self).is_last_num_as_str,
            Tokenizer::moved_on(*old(self), *final(self)),
            r is Some ==> taken(*old(self), *final(self), r->0),
            r is None ==> old(self).current is None && lex_step(*old(self), *final(self), r),
            old(self).current is None ==> lex_step(*old(self), *final(self), r),
            r is Some ==> final(self).remaining() < old(self).remaining(),
    {
        if self.current.is_some() {
            let r = self.current.take();
            proof {
                assert(self.errors@.take(self.errors@.len() as int) =~= self.errors@);
            }
            r
        } else {
            self._next()
        }
    }

    /// The next token, left in the look-ahead slot.
    pub fn peek(&mut self) -> (r: Option<&Token>)
        requires
            old(self).wf(),
        ensures
            final(self).wf(),
            final(self).is_last_num_as_str == old(self).is_last_num_as_str,
            Tokenizer::moved_on(*old(self), *final(self)),
            r is Some <==> final(self).current is Some,
            r is Some ==> *r->0 == final(self).current->0,
            peeked(*old(self), *final(self)),
    {
        if self.current.is_some() {
            proof {
                assert(self.errors@.take(self.errors@.len() as int) =~= self.errors@);
            }
            return self.current.as_ref();
        }
        self.current = self._next();
        self.current.as_ref()
    }

    /// Whether the next token is `tok`; also when there is none.
    pub fn is_next(&mut self, tok: TokenType) -> (r: bool)
        requires
            old(self).wf(),
        ensures
            final(self).wf(),
            final(self).is_last_num_as_str == old(self).is_last_num_as_str,
            Tokenizer::moved_on(*old(self), *final(self)),
            peeked(*old(self), *final(self)),
            r == (final(self).current is None || final(self).current->0.val@ == tok@),
    {
        let next = self.peek();
        match next {
            Some(token) => token.val.same(&tok),
            None => true,
        }
    }

    /// Takes the next token when it is `tok`; otherwise fails with `err`, or
    /// with an "expected ..., but found ..." error (an "expected ..." error
    /// when no token follows) at the start of the last token.
    pub fn skip_or_err(&mut self, tok: TokenType, err: Option<BaseError>) -> (r: Result<(), BaseError>)
        requires
            old(self).wf(),
        ensures
            final(self).wf(),
            final(self).is_last_num_as_str == old(self).is_last_num_as_str,
            Tokenizer::moved_on(*old(self), *final(self)),
            r is Ok ==> final(self).remaining() < old(self).remaining(),
            r is Ok ==> exists|t: Token| t.val@ == tok@ && #[trigger] taken(*old(self), *final(self), t),
            r is Err ==> peeked(*old(self), *final(self)) && (final(self).current is None
                || final(self).current->0.val@ != tok@),
            r is Err && err is Some ==> r->Err_0 == err->0,
            r is Err && err is None && final(self).current is Some ==> error_is(
                r->Err_0,
                DiagnosticId::ExpectedFound,
                seq![token_text(tok@), token_text(final(self).current->0.val@)],
                Range { start: final(self).last_loc, end: final(self).last_loc },
            ),
            r is Err && err is None && final(self).current is None ==> error_is(
                r->Err_0,
                DiagnosticId::Expected,
                seq![token_text(tok@)],
                Range { start: final(self).last_loc, end: final(self).last_loc },
            ),
    {
        let found: Option<String> = match self.peek() {
            Some(token) => {
                if token.val.same(&tok) {
                    None
                } else {
                    Some(token.val.to_display_string())
                }
            },
            None => Some(String::new()),
        };
        match found {
            None => {
                let ghost mid = *self;
                let t = self.consume();
                proof {
                    lemma_take_after_peek(*old(self), mid, *self, t->0);
                }
                Ok(())
            },
            Some(other) => {
                match err {
                    Some(e) => Err(e),
                    None => {
                        let expected = tok.to_display_string();
                        if self.current.is_some() {
                            let vars = vec![expected.as_str(), other.as_str()];
                            assert(str_views(vars@) =~= seq![expected@, other@]);
                            Err(crate::diagnostics::err(DiagnosticId::ExpectedFound, self.last_loc.to_range(), vars))
                        } else {
                            let vars = vec![expected.as_str()];
                            assert(str_views(vars@) =~= seq![expected@]);
                            Err(crate::diagnostics::err(DiagnosticId::Expected, self.last_loc.to_range(), vars))
                        }
                    },
                }
            },
        }
    }

    /// Takes the next token when it is one of the punctuation characters
    /// `puncs` and returns that character; otherwise fails with an error at
    /// `loc` (by default the start of the last token, before the look-ahead).
    pub fn expect_punc(&mut self, puncs: &[char], loc: Option<Range>) -> (r: Result<char, BaseError>)
        requires
            old(self).wf(),
        ensures
            final(self).wf(),
            final(self).is_last_num_as_str == old(self).is_last_num_as_str,
            Tokenizer::moved_on(*old(self), *final(self)),
            r is Ok ==> final(self).remaining() < old(self).remaining(),
            r is Ok ==> puncs@.contains(r->Ok_0) && exists|t: Token|
                t.val@ == TokenVal::Punc(r->Ok_0) && #[trigger] taken(*old(self), *final(self), t),
            r is Err ==> peeked(*old(self), *final(self)) && (final(self).current is None
                || !(final(self).current->0.val@ is Punc && puncs@.contains(
                final(self).current->0.val@->Punc_0,
            ))),
            ({
                let location = match loc {
                    Some(l) => l,
                    None => Range { start: old(self).last_loc, end: old(self).last_loc },
                };
                &&& r is Err && final(self).current is Some ==> error_is(
                    r->Err_0,
                    DiagnosticId::ExpectedFound,
                    seq![one_of_text(puncs@), token_text(final(self).current->0.val@)],
                    location,
                )
                &&& r is Err && final(self).current is None ==> error_is(
                    r->Err_0,
                    DiagnosticId::Expected,
                    seq![one_of_text(puncs@)],
                    location,
                )
            }),
    {
        let location = match loc {
            Some(l) => l,
            None => Range { start: self.last_loc, end: self.last_loc },
        };
        let found: Result<char, Option<String>> = match self.peek() {
            Some(tok) => {
                match &tok.val {
                    TokenType::Punc(p) => {
                        if contains_char(puncs, *p) {
                            Ok(*p)
                        } else {
                            Err(Some(tok.val.to_display_string()))
                        }
                    },
                    _ => Err(Some(tok.val.to_display_string())),
                }
            },
            None => Err(None),
        };
        match found {
            Ok(p) => {
                let ghost mid = *self;
                let t = self.consume();
                proof {
                    lemma_take_after_peek(*old(self), mid, *self, t->0);
                }
                Ok(p)
            },
            Err(other) => {
                let expected = one_of(puncs);
                match other {
                    Some(o) => {
                        let vars = vec![expected.as_str(), o.as_str()];
                        assert(str_views(vars@) =~= seq![expected@, o@]);
                        Err(crate::diagnostics::err(DiagnosticId::ExpectedFound, location, vars))
                    },
                    None => {
                        let vars = vec![expected.as_str()];
                        assert(str_views(vars@) =~= seq![expected@]);
                        Err(crate::diagnostics::err(DiagnosticId::Expected, location, vars))
                    },
                }
            },
        }
    }

    /// Takes the next token when it is the operator `op`.
    pub fn is_next_full_op(&mut self, op: &str) -> (r: bool)
        requires
            old(self).wf(),
        ensures
            final(self).wf(),
            final(self).is_last_num_as_str == old(self).is_last_num_as_str,
            Tokenizer::moved_on(*old(self), *final(self)),
            r ==> final(self).remaining() < old(self).remaining(),
            r ==> exists|t: Token| t.val@ == TokenVal::Op(op@) && #[trigger] taken(*old(self), *final(self), t),
            !r ==> peeked(*old(self), *final(self)) && !(final(self).current is Some
                && final(self).current->0.val@ == TokenVal::Op(op@)),
    {
        let matched = match self.peek() {
            Some(t) => {
                match &t.val {
                    TokenType::Op(s) => str_eq(s.as_str(), op),
                    _ => false,
                }
            },
            None => false,
        };
        if matched {
            let ghost mid = *self;
            let t = self.consume();
            proof {
                lemma_take_after_peek(*old(self), mid, *self, t->0);
            }
        }
        matched
    }

    /// Reads an operator spelled over several tokens: the operator held in
    /// the look-ahead slot (if any) and the operator characters that follow
    /// it in the input. Fails with `err`, or with an "expected ..., but found
    /// ..." error, when the result is not `op`.
    pub fn skip_or_err_full_op(&mut self, op: &str, err: Option<BaseError>) -> (r: Result<(), BaseError>)
        requires
            old(self).wf(),
        ensures
            final(self).wf(),
            final(self).is_last_num_as_str == old(self).is_last_num_as_str,
            final(self).errors == old(self).errors,
            final(self).last_loc == old(self).last_loc,
            final(self).filename == old(self).filename,
            ({
                let held = match old(self).current {
                    Some(t) => match t.val@ {
                        TokenVal::Op(o) => Some(o),
                        _ => None,
                    },
                    None => None,
                };
                let s = old(self).input.code();
                let p = old(self).input.pos() as int;
                let e = op_run_end(s, p);
                let text = match held {
                    Some(o) => o,
                    None => Seq::<char>::empty(),
                } + s.subrange(p, e);
                &&& final(self).input == old(self).input.advanced((e - p) as nat)
                &&& final(self).current == (if held is Some {
                    None
                } else {
                    old(self).current
                })
                &&& r is Ok <==> text == op@
                &&& r is Err && err is Some ==> r->Err_0 == err->0
                &&& r is Err && err is None ==> error_is(
                    r->Err_0,
                    DiagnosticId::ExpectedFound,
                    seq![op@, text],
                    Range { start: old(self).last_loc, end: old(self).last_loc },
                )
            }),
    {
        let is_op = match &self.current {
            Some(tok) => match &tok.val {
                TokenType::Op(_) => true,
                _ => false,
            },
            None => false,
        };
        let mut full = String::new();
        if is_op {
            let tok = self.current.take().unwrap();
            if let TokenType::Op(s) = tok.val {
                full = s;
            }
        }
        let rest = self.parse_full_op(None);
        full.append(rest.as_str());
        if !str_eq(full.as_str(), op) {
            match err {
                Some(e) => Err(e),
                None => {
                    let vars = vec![op, full.as_str()];
                    assert(str_views(vars@) =~= seq![op@, full@]);
                    Err(crate::diagnostics::err(DiagnosticId::ExpectedFound, self.last_loc.to_range(), vars))
                },
            }
        } else {
            Ok(())
        }
    }

    /// The empty range at the start of the last token.
    pub fn range_here(&self) -> (r: Range)
        ensures
            r.start == self.last_loc,
            r.end == self.last_loc,
    {
        Range { start: self.last_loc, end: self.last_loc }
    }

    /// Takes the next character straight from the input, bypassing the
    /// look-ahead slot.
    pub fn consume_input(&mut self) -> (r: Option<char>)
        requires
            old(self).wf(),
        ensures
            final(self).wf(),
            only_input_moved(*old(self), *final(self)),
            final(self).input == old(self).input.step(),
            final(self).input.code() == old(self).input.code(),
            r == old(self).input.ahead(0),
            !old(self).input.at_eof() ==> final(self).input.pos() == old(self).input.pos() + 1,
            old(self).input.at_eof() ==> final(self).input.pos() == old(self).input.pos(),
    {
        proof {
            self.input.lemma_step();
        }
        self.input.consume()
    }

    /// Reads the identifier characters (letters, digits, `_`) that follow,
    /// straight from the input, bypassing the look-ahead slot.
    pub fn parse_text(&mut self) -> (text: String)
        requires
            old(self).wf(),
        ensures
            final(self).wf(),
            only_input_moved(*old(self), *final(self)),
            ({
                let s = old(self).input.code();
                let p = old(self).input.pos() as int;
                let e = ident_end(s, p);
                &&& p <= e <= s.len()
                &&& final(self).input == old(self).input.advanced((e - p) as nat)
                &&& final(self).input.code() == s
                &&& final(self).input.pos() == e
                &&& text@ == s.subrange(p, e)
                &&& forall|k: int| 0 <= k < text@.len() ==> is_ident_char(#[trigger] text@[k])
            }),
    {
        let ghost i0 = self.input;
        let ghost s = i0.code();
        let ghost p = i0.pos() as int;
        proof {
            lemma_ident_end(s, p);
            lemma_adv(i0, 0);
        }
        let mut text = String::new();
        while !self.input.is_eof()
            invariant
                i0.wf(),
                s == i0.code(),
                p == i0.pos(),
                self.input.wf(),
                self.input.code() == s,
                p <= self.input.pos() <= s.len(),
                ident_end(s, self.input.pos() as int) == ident_end(s, p),
                self.input == i0.advanced((self.input.pos() - p) as nat),
                text@ == s.subrange(p, self.input.pos() as int),
                only_input_moved(*old(self), *self),
            ensures
                self.input.pos() == ident_end(s, p),
            decreases s.len() - self.input.pos(),
        {
            proof {
                lemma_adv(i0, (self.input.pos() - p) as nat);
            }
            let ch = self.input.peek(0).unwrap();
            if ident_char(ch) {
                let c = self.input.consume().unwrap();
                push_char(&mut text, c);
                proof {
                    assert(text@ =~= s.subrange(p, self.input.pos() as int));
                }
            } else {
                break;
            }
        }
        proof {
            lemma_adv(i0, (self.input.pos() - p) as nat);
        }
        text
    }

    /// Takes the next token when it is `tok`; otherwise records the error
    /// that [`Tokenizer::skip_or_err`] reports and gives `None`.
    pub fn skip_or_err_here(&mut self, tok: TokenType) -> (r: Option<()>)
        requires
            old(self).wf(),
        ensures
            final(self).wf(),
            final(self).is_last_num_as_str == old(self).is_last_num_as_str,
            Tokenizer::moved_on(*old(self), *final(self)),
            r is Some ==> final(self).remaining() < old(self).remaining(),
            r is Some ==> exists|t: Token| t.val@ == tok@ && #[trigger] taken(*old(self), *final(self), t),
            r is None ==> final(self).current is None || final(self).current->0.val@ != tok@,
            r is None ==> final(self).errors@.len() >= old(self).errors@.len() + 1,
            r is None && final(self).current is Some ==> error_is(
                final(self).errors@.last(),
                DiagnosticId::ExpectedFound,
                seq![token_text(tok@), token_text(final(self).current->0.val@)],
                Range { start: final(self).last_loc, end: final(self).last_loc },
            ),
            r is None && final(self).current is None ==> error_is(
                final(self).errors@.last(),
                DiagnosticId::Expected,
                seq![token_text(tok@)],
                Range { start: final(self).last_loc, end: final(self).last_loc },
            ),
    {
        match self.skip_or_err(tok, None) {
            Ok(()) => Some(()),
            Err(e) => {
                self.errors.push(e);
                None
            },
        }
    }

    /// Reads a word: an identifier, a keyword, a boolean or `none`.
    fn parse_ident(&mut self) -> (t: Token)
        requires
            old(self).wf(),
        ensures
            final(self).wf(),
            only_input_moved(*old(self), *final(self)),
            ({
                let s = old(self).input.code();
                let p = old(self).input.pos() as int;
                let e = ident_end(s, p);
                &&& final(self).input == old(self).input.advanced((e - p) as nat)
                &&& t.val@ == word_token(s.subrange(p, e))
                &&& t.range == (Range {
                    start: old(self).input.spec_loc(),
                    end: final(self).input.spec_loc(),
                })
            }),
    {
        let ghost i0 = self.input;
        let ghost s = i0.code();
        let ghost p = i0.pos() as int;
        proof {
            lemma_ident_end(s, p);
            lemma_adv(i0, 0);
            i0.lemma_step();
        }
        let mut ident = String::new();
        let start = self.input.loc();
        while !self.input.is_eof()
            invariant
                i0.wf(),
                s == i0.code(),
                p == i0.pos(),
                self.input.wf(),
                self.input.code() == s,
                p <= self.input.pos() <= s.len(),
                ident_end(s, self.input.pos() as int) == ident_end(s, p),
                self.input == i0.advanced((self.input.pos() - p) as nat),
                ident@ == s.subrange(p, self.input.pos() as int),
                only_input_moved(*old(self), *self),
                start == i0.spec_loc(),
            ensures
                self.input.pos() == ident_end(s, p),
            decreases s.len() - self.input.pos(),
        {
            proof {
                lemma_adv(i0, (self.input.pos() - p) as nat);
            }
            let ch = self.input.peek(0).unwrap();
            if ident_char(ch) {
                let c = self.input.consume().unwrap();
                push_char(&mut ident, c);
                proof {
                    assert(ident@ =~= s.subrange(p, self.input.pos() as int));
                }
            } else {
                break;
            }
        }
        proof {
            lemma_adv(i0, (self.input.pos() - p) as nat);
        }
        let end = self.input.loc();
        let range = Range { start, end };
        if str_eq(ident.as_str(), "true") {
            return Token { val: TokenType::Bool(true), range };
        } else if str_eq(ident.as_str(), "false") {
            return Token { val: TokenType::Bool(false), range };
        } else if str_eq(ident.as_str(), "none") {
            return Token { val: TokenType::NoneValue, range };
        }
        let token_type = if keyword(ident.as_str()) {
            TokenType::Kw(ident)
        } else {
            TokenType::Var(ident)
        };
        Token { val: token_type, range }
    }

    /// Reads one punctuation character.
    fn parse_punc(&mut self) -> (t: Token)
        requires
            old(self).wf(),
            !old(self).input.at_eof(),
        ensures
            final(self).wf(),
            only_input_moved(*old(self), *final(self)),
            final(self).input == old(self).input.step(),
            t.val@ == TokenVal::Punc(old(self).input.cur()),
            t.range == (Range { start: old(self).input.spec_loc(), end: old(self).input.spec_loc() }),
    {
        proof {
            self.input.lemma_step();
        }
        let range = Range { start: self.input.loc(), end: self.input.loc() };
        let c = self.input.consume().unwrap();
        Token { val: TokenType::Punc(c), range }
    }

    /// Reads an operator. Characters are taken while they are operator
    /// characters and the text so far is not `?`, `>` or `<>`; `<>` followed
    /// by more input is reported as an unexpected operator.
    fn parse_op(&mut self) -> (t: Token)
        requires
            old(self).wf(),
        ensures
            final(self).errors@.len() >= old(self).errors@.len(),
            final(self).errors@.take(old(self).errors@.len() as int) == old(self).errors@,
            final(self).wf(),
            only_input_and_errors_moved(*old(self), *final(self)),
            ({
                let s = old(self).input.code();
                let p = old(self).input.pos() as int;
                let e = op_end(s, p, p);
                &&& final(self).input == old(self).input.advanced((e - p) as nat)
                &&& t.val@ == TokenVal::Op(s.subrange(p, e))
                &&& t.range == (Range {
                    start: old(self).input.spec_loc(),
                    end: final(self).input.spec_loc(),
                })
                &&& if op_refused(s, p) {
                    &&& final(self).errors@.len() == old(self).errors@.len() + 1
                    &&& final(self).errors@.drop_last() == old(self).errors@
                    &&& error_is(
                        final(self).errors@.last(),
                        DiagnosticId::UnexpectedOp,
                        seq![s.subrange(p, e)],
                        t.range,
                    )
                } else {
                    final(self).errors@ == old(self).errors@
                }
            }),
    {
        proof {
            assert(self.errors@.take(self.errors@.len() as int) =~= self.errors@);
        }
        let ghost i0 = self.input;
        let ghost s = i0.code();
        let ghost p = i0.pos() as int;
        proof {
            lemma_adv(i0, 0);
        }
        let start = self.input.loc();
        let mut op = String::new();
        let mut refused = false;
        assert(op@ =~= s.subrange(p, p));
        while !self.input.is_eof()
            invariant_except_break
                !refused,
            invariant
                i0.wf(),
                s == i0.code(),
                p == i0.pos(),
                self.input.wf(),
                self.input.code() == s,
                p <= self.input.pos() <= s.len(),
                op_end(s, p, self.input.pos() as int) == op_end(s, p, p),
                self.input == i0.advanced((self.input.pos() - p) as nat),
                op@ == s.subrange(p, self.input.pos() as int),
                only_input_moved(*old(self), *self),
                start == i0.spec_loc(),
            ensures
                self.input.pos() == op_end(s, p, p),
                refused == (self.input.pos() < s.len() && op@ == "<>"@),
            decreases s.len() - self.input.pos(),
        {
            proof {
                lemma_adv(i0, (self.input.pos() - p) as nat);
            }
            if str_eq(op.as_str(), "<>") {
                refused = true;
                break;
            }
            if str_eq(op.as_str(), "?") || str_eq(op.as_str(), ">") {
                break;
            }
            let ch = self.input.peek(0).unwrap();
            if op_char(ch) {
                let c = self.input.consume().unwrap();
                push_char(&mut op, c);
                proof {
                    assert(op@ =~= s.subrange(p, self.input.pos() as int));
                }
            } else {
                break;
            }
        }
        proof {
            lemma_adv(i0, (self.input.pos() - p) as nat);
        }
        let range = Range { start, end: self.input.loc() };
        if refused {
            let vars = vec![op.as_str()];
            proof {
                assert(str_views(vars@) =~= seq![op@]);
            }
            let e = err(DiagnosticId::UnexpectedOp, range, vars);
            self.errors.push(e);
            proof {
                assert(self.errors@.take(old(self).errors@.len() as int) =~= old(self).errors@);
            }
        }
        Token { val: TokenType::Op(op), range }
    }

    /// Reads a string literal that starts at the cursor and ends at
    /// `end_char`; an unterminated literal runs to the end of the input and
    /// is reported.
    fn parse_str(&mut self, end_char: char) -> (t: Token)
        requires
            old(self).wf(),
            !old(self).input.at_eof(),
        ensures
            final(self).errors@.len() >= old(self).errors@.len(),
            final(self).errors@.take(old(self).errors@.len() as int) == old(self).errors@,
            final(self).wf(),
            only_input_and_errors_moved(*old(self), *final(self)),
            ({
                let s = old(self).input.code();
                let p = old(self).input.pos() as int;
                let q = find_char(s, p + 1, end_char);
                let e = if q < s.len() { q + 1 } else { s.len() as int };
                &&& final(self).input == old(self).input.advanced((e - p) as nat)
                &&& t.val@ == TokenVal::Str(s.subrange(p + 1, q))
                &&& t.range == (Range {
                    start: old(self).input.spec_loc(),
                    end: final(self).input.spec_loc(),
                })
                &&& if q < s.len() {
                    final(self).errors@ == old(self).errors@
                } else {
                    &&& final(self).errors@.len() == old(self).errors@.len() + 1
                    &&& final(self).errors@.drop_last() == old(self).errors@
                    &&& error_is(
                        final(self).errors@.last(),
                        DiagnosticId::EndOfStr,
                        Seq::empty(),
                        Range { start: old(self).input.spec_loc(), end: old(self).last_loc },
                    )
                }
            }),
    {
        proof {
            assert(self.errors@.take(self.errors@.len() as int) =~= self.errors@);
        }
        let ghost i0 = self.input;
        let ghost s = i0.code();
        let ghost p = i0.pos() as int;
        proof {
            lemma_adv(i0, 0);
            lemma_adv(i0, 1);
            lemma_find_char(s, p + 1, end_char);
        }
        let start = self.input.loc();
        self.input.consume();
        let mut text = String::new();
        let mut closed = false;
        assert(text@ =~= s.subrange(p + 1, p + 1));
        while !self.input.is_eof()
            invariant_except_break
                !closed,
                find_char(s, p + 1, end_char) == find_char(s, self.input.pos() as int, end_char),
                text@ == s.subrange(p + 1, self.input.pos() as int),
            invariant
                i0.wf(),
                s == i0.code(),
                p == i0.pos(),
                p + 1 <= self.input.pos() <= s.len(),
                self.input.wf(),
                self.input.code() == s,
                self.input == i0.advanced((self.input.pos() - p) as nat),
                only_input_moved(*old(self), *self),
                start == i0.spec_loc(),
            ensures
                closed ==> self.input.pos() == find_char(s, p + 1, end_char) + 1
                    && text@ == s.subrange(p + 1, find_char(s, p + 1, end_char)),
                !closed ==> self.input.pos() == s.len() && find_char(s, p + 1, end_char) == s.len()
                    && text@ == s.subrange(p + 1, s.len() as int),
            decreases s.len() - self.input.pos(),
        {
            proof {
                lemma_adv(i0, (self.input.pos() - p) as nat);
            }
            let ghost q = self.input.pos() as int;
            let c = self.input.consume().unwrap();
            if c == end_char {
                assert(find_char(s, q, end_char) == q);
                closed = true;
                break;
            }
            push_char(&mut text, c);
            proof {
                assert(text@ =~= s.subrange(p + 1, self.input.pos() as int));
            }
        }
        proof {
            lemma_adv(i0, (self.input.pos() - p) as nat);
        }
        if !closed {
            let e = err(DiagnosticId::EndOfStr, Range { start, end: self.last_loc }, Vec::new());
            proof {
                assert(str_views(Seq::<&str>::empty()) =~= Seq::<Seq<char>>::empty());
            }
            self.errors.push(e);
            proof {
                assert(self.errors@.take(old(self).errors@.len() as int) =~= old(self).errors@);
            }
        }
        Token { val: TokenType::Str(text), range: Range { start, end: self.input.loc() } }
    }

    /// Reads a character literal: the quote, one character and the closing
    /// quote. A missing character reads as `_`; both a missing character and
    /// a missing closing quote are reported.
    fn parse_char(&mut self) -> (t: Token)
        requires
            old(self).wf(),
            !old(self).input.at_eof(),
        ensures
            final(self).errors@.len() >= old(self).errors@.len(),
            final(self).errors@.take(old(self).errors@.len() as int) == old(self).errors@,
            final(self).wf(),
            only_input_and_errors_moved(*old(self), *final(self)),
            ({
                let s = old(self).input.code();
                let p = old(self).input.pos() as int;
                let empty = p + 1 >= s.len();
                let unclosed = p + 2 >= s.len() || s[p + 2] != '\'';
                let added = final(self).errors@.skip(old(self).errors@.len() as int);
                let start = old(self).input.spec_loc();
                &&& final(self).input == old(self).input.advanced(3)
                &&& t.val@ == TokenVal::Char(if empty { '_' } else { s[p + 1] })
                &&& t.range == (Range { start, end: final(self).input.spec_loc() })
                &&& final(self).errors@.take(old(self).errors@.len() as int) == old(self).errors@
                &&& added.len() == (if empty { 1int } else { 0 }) + (if unclosed { 1int } else { 0 })
                &&& empty ==> error_is(
                    added[0],
                    DiagnosticId::EmptyCharLiteral,
                    Seq::empty(),
                    Range { start: old(self).last_loc, end: old(self).last_loc },
                )
                &&& unclosed ==> error_is(
                    added.last(),
                    DiagnosticId::OneCharEndpoint,
                    Seq::empty(),
                    Range { start, end: old(self).last_loc },
                )
            }),
    {
        let ghost i0 = self.input;
        let ghost s = i0.code();
        let ghost p = i0.pos() as int;
        let ghost n0 = self.errors@.len();
        proof {
            lemma_adv(i0, 0);
            lemma_adv(i0, 1);
            lemma_adv(i0, 2);
            lemma_adv(i0, 3);
            assert(str_views(Seq::<&str>::empty()) =~= Seq::<Seq<char>>::empty());
        }
        let start = self.input.loc();
        self.input.consume();
        let maybe_ch = self.input.consume();
        let val = match maybe_ch {
            Some(ch) => ch,
            None => {
                let e = err(DiagnosticId::EmptyCharLiteral, self.range_here(), Vec::new());
                self.errors.push(e);
                '_'
            },
        };
        let next = self.input.consume();
        let unclosed = match next {
            Some(c) => c != '\'',
            None => true,
        };
        if unclosed {
            let e = err(DiagnosticId::OneCharEndpoint, Range { start, end: self.last_loc }, Vec::new());
            self.errors.push(e);
        }
        proof {
            assert(self.errors@.take(n0 as int) =~= old(self).errors@);
        }
        Token { val: TokenType::Char(val), range: Range { start, end: self.input.loc() } }
    }

    /// Reads a number literal (see [`scan_num`]) and its time-unit suffix.
    /// Digits that are no numeral, or a value that does not fit, are
    /// reported as an invalid digit and read as `0`.
    fn parse_num(&mut self) -> (t: Token)
        requires
            old(self).wf(),
        ensures
            final(self).errors@.len() >= old(self).errors@.len(),
            final(self).errors@.take(old(self).errors@.len() as int) == old(self).errors@,
            final(self).wf(),
            only_input_and_errors_moved(*old(self), *final(self)),
            ({
                let s = old(self).input.code();
                let i0 = old(self).input;
                let p = i0.pos() as int;
                let r = scan_num(s, p, NumScan::start(), old(self).is_last_num_as_str);
                let suffixed = !r.early && has_suffix(s, r.end);
                let e = if suffixed { r.end + 1 } else { r.end };
                let factor = if suffixed { time_factor(s[r.end]) } else { 1 };
                let range = Range { start: i0.spec_loc(), end: final(self).input.spec_loc() };
                let tok = num_token(r, factor);
                let n0 = old(self).errors@.len() as int;
                let added = final(self).errors@.skip(n0);
                &&& final(self).input == i0.advanced((e - p) as nat)
                &&& t.range == range
                &&& t.val@ == (match tok {
                    Some(v) => v,
                    None => TokenVal::Int(0),
                })
                &&& final(self).errors@.take(n0) == old(self).errors@
                &&& added.len() == r.scan.errors.len() + (if tok is None { 1int } else { 0 })
                &&& forall|k: int|
                    0 <= k < r.scan.errors.len() ==> num_err_is(
                        #[trigger] added[k],
                        r.scan.errors[k],
                        i0,
                        old(self).last_loc,
                    )
                &&& tok is None ==> error_is(
                    added.last(),
                    DiagnosticId::InvalidDigit,
                    Seq::empty(),
                    range,
                )
            }),
    {
        let ghost i0 = self.input;
        let ghost s = i0.code();
        let ghost p = i0.pos() as int;
        let ghost n0 = self.errors@.len() as int;
        let ghost as_str = self.is_last_num_as_str;
        let ghost total = scan_num(s, p, NumScan::start(), as_str);
        proof {
            lemma_adv(i0, 0);
            lemma_scan_num(s, p, NumScan::start(), as_str);
            assert(str_views(Seq::<&str>::empty()) =~= Seq::<Seq<char>>::empty());
            assert(self.errors@.take(n0) =~= old(self).errors@);
        }
        let start = self.input.loc();
        let mut num: Vec<char> = Vec::new();
        let mut kind = NumberType::Decimal;
        let mut dot = false;
        let mut early = false;
        let ghost mut errs: Seq<NumErr> = Seq::empty();
        assert(num@ =~= Seq::<char>::empty());
        while !self.input.is_eof()
            invariant_except_break
                !early,
                scan_num(
                    s,
                    self.input.pos() as int,
                    NumScan { digits: num@, kind, dot, errors: errs },
                    as_str,
                ) == total,
            invariant
                i0.wf(),
                s == i0.code(),
                p == i0.pos(),
                self.input.wf(),
                self.input.code() == s,
                p <= self.input.pos() <= s.len(),
                self.input == i0.advanced((self.input.pos() - p) as nat),
                only_input_and_errors_moved(*old(self), *self),
                as_str == self.is_last_num_as_str,
                start == i0.spec_loc(),
                self.errors@.len() == n0 + errs.len(),
                self.errors@.take(n0) == old(self).errors@,
                forall|k: int|
                    0 <= k < errs.len() ==> num_err_is(
                        #[trigger] self.errors@[n0 + k],
                        errs[k],
                        i0,
                        old(self).last_loc,
                    ),
                total == scan_num(s, p, NumScan::start(), as_str),
                0 <= n0,
                str_views(Seq::<&str>::empty()) == Seq::<Seq<char>>::empty(),
            ensures
                total == (NumRead {
                    end: self.input.pos() as int,
                    early,
                    scan: NumScan { digits: num@, kind, dot, errors: errs },
                }),
            decreases s.len() - self.input.pos(),
        {
            let ghost j = self.input.pos() as int;
            let ghost st = NumScan { digits: num@, kind, dot, errors: errs };
            proof {
                lemma_adv(i0, (j - p) as nat);
                lemma_adv(i0, (j - p + 1) as nat);
                lemma_adv(i0, (j - p + 2) as nat);
            }
            let ch = self.input.peek(0).unwrap();
            if ch == '0' {
                let nx = match self.input.peek(1) {
                    Some(c) => c,
                    None => ' ',
                };
                if nx == 'o' || nx == 'x' || nx == 'b' {
                    kind = if nx == 'o' {
                        NumberType::Octal
                    } else if nx == 'x' {
                        NumberType::Hex
                    } else {
                        NumberType::Binary
                    };
                    self.input.consume();
                    self.input.consume();
                } else {
                    num.push('0');
                    self.input.consume();
                }
            } else if '1' <= ch && ch <= '9' {
                let bad = (kind == NumberType::Binary && ch > '1') || (kind == NumberType::Octal
                    && ch > '7');
                if bad {
                    let e = err(DiagnosticId::InvalidDigit, self.range_here(), Vec::new());
                    proof {
                        lemma_push_num_error(self.errors@, e, n0, errs, NumErr::InvalidDigit, i0, old(self).last_loc);
                    }
                    self.errors.push(e);
                    proof {
                        errs = errs.push(NumErr::InvalidDigit);
                    }
                    kind = NumberType::Decimal;
                }
                let c = self.input.consume().unwrap();
                num.push(c);
            } else if ('A' <= ch && ch <= 'F') || ('a' <= ch && ch <= 'f') {
                if kind == NumberType::Hex {
                    let c = self.input.consume().unwrap();
                    num.push(c);
                } else if ch == 'd' {
                    break;
                } else {
                    let e = err(DiagnosticId::InvalidDigit, self.range_here(), Vec::new());
                    proof {
                        lemma_push_num_error(self.errors@, e, n0, errs, NumErr::InvalidDigit, i0, old(self).last_loc);
                    }
                    self.errors.push(e);
                    proof {
                        errs = errs.push(NumErr::InvalidDigit);
                    }
                    break;
                }
            } else if ch == '.' {
                if self.is_last_num_as_str {
                    break;
                }
                let nx = match self.input.peek(1) {
                    Some(c) => c,
                    None => ' ',
                };
                if nx == '.' {
                    early = true;
                    break;
                }
                if dot {
                    self.input.consume();
                    let e = err(
                        DiagnosticId::DecimalPoint,
                        Range { start, end: self.input.loc() },
                        Vec::new(),
                    );
                    proof {
                        lemma_push_num_error(self.errors@, e, n0, errs, NumErr::DecimalPoint(j + 1), i0, old(self).last_loc);
                    }
                    self.errors.push(e);
                    proof {
                        errs = errs.push(NumErr::DecimalPoint(j + 1));
                    }
                    break;
                }
                self.input.consume();
                dot = true;
                num.push('.');
            } else if ch == '_' {
                self.input.consume();
            } else {
                break;
            }
        }
        let ghost r = total;
        let ghost d = num@;
        proof {
            lemma_adv(i0, (self.input.pos() - p) as nat);
            lemma_adv(i0, (self.input.pos() - p + 1) as nat);
            crate::numeric::lemma_radix_value_nonneg(d, 10);
            lemma_num_errors_added(self.errors@, n0, errs, i0, old(self).last_loc);
        }
        if early {
            let range = Range { start, end: self.input.loc() };
            let ghost before = self.errors@;
            let val = match numeral_value(&num, 10, 2147483647) {
                Some(v) => TokenType::Int(v as i32),
                None => {
                    let e = err(DiagnosticId::InvalidDigit, range, Vec::new());
                    self.errors.push(e);
                    proof {
                        assert(self.errors@.take(n0) =~= before.take(n0));
                        assert forall|k: int| 0 <= k < errs.len() implies #[trigger] self.errors@[n0 + k]
                            == before[n0 + k] by {}
                        lemma_num_errors_added(self.errors@, n0, errs, i0, old(self).last_loc);
                    }
                    TokenType::Int(0)
                },
            };
            return Token { val, range };
        }
        let ghost suffixed = has_suffix(s, r.end);
        let factor: u64 = match self.input.peek(0) {
            Some(c) => {
                if c == 's' {
                    self.input.consume();
                    1000
                } else if c == 'm' {
                    self.input.consume();
                    60000
                } else if c == 'h' {
                    self.input.consume();
                    3600000
                } else if c == 'd' {
                    self.input.consume();
                    86400000
                } else {
                    1
                }
            },
            None => 1,
        };
        assert(factor == (if suffixed { time_factor(s[r.end]) } else { 1 }));
        assert(self.input == i0.advanced(((if suffixed { r.end + 1 } else { r.end }) - p) as nat));
        let range = Range { start, end: self.input.loc() };
        let ghost tok = num_token(r, factor as int);
        let value: Option<TokenType> = if kind == NumberType::Hex {
            match radix_literal(&num, 16, factor) {
                Some(v) => Some(TokenType::Int(v)),
                None => None,
            }
        } else if kind == NumberType::Octal {
            match radix_literal(&num, 8, factor) {
                Some(v) => Some(TokenType::Int(v)),
                None => None,
            }
        } else if kind == NumberType::Binary {
            match radix_literal(&num, 2, factor) {
                Some(v) => Some(TokenType::Int(v)),
                None => None,
            }
        } else if dot {
            Some(TokenType::Float(FloatLit { digits: string_of_chars(&num), scale: factor as u32 }))
        } else {
            match decimal_literal(&num, factor) {
                Some(v) => Some(TokenType::Int(v)),
                None => None,
            }
        };
        assert(value is Some <==> tok is Some);
        assert(value is Some ==> value->0@ == tok->0);
        let ghost before = self.errors@;
        match value {
            Some(v) => Token { val: v, range },
            None => {
                let e = err(DiagnosticId::InvalidDigit, range, Vec::new());
                self.errors.push(e);
                proof {
                    assert(self.errors@.take(n0) =~= before.take(n0));
                    assert forall|k: int| 0 <= k < errs.len() implies #[trigger] self.errors@[n0 + k]
                        == before[n0 + k] by {}
                    lemma_num_errors_added(self.errors@, n0, errs, i0, old(self).last_loc);
                }
                Token { val: TokenType::Int(0), range }
            },
        }
    }

    /// The message for a character that resembles punctuation, if `ch` is one.
    pub fn is_confusable(ch: char) -> (r: Option<String>)
        ensures
            r is Some <==> confusable_names(ch) is Some,
            r is Some ==> ({
                let names = confusable_names(ch)->0;
                r->0@ == formatted(diagnostic_text(DiagnosticId::Confusable), seq![names.0, names.1])
            }),
    {
        if ch == '\u{37e}' {
            Some(confusable_msg("\u{37e} (Greek question mark)", "; (semicolon)"))
        } else if ch == '\u{201a}' {
            Some(confusable_msg("\u{201a} (low-9 quatation mark)", ", (comma)"))
        } else if ch == '\u{66b}' {
            Some(confusable_msg("\u{201a} (arabic decimal separator)", ", (comma)"))
        } else if ch == '\u{ff1a}' {
            Some(confusable_msg("\u{ff1a} (fullwidth colon)", ": (colon)"))
        } else if ch == '\u{589}' {
            Some(confusable_msg("\u{ff1a} (armenian full stop)", ": (colon)"))
        } else if ch == '\u{2236}' {
            Some(confusable_msg("\u{2236} (ratio)", ": (colon)"))
        } else if ch == '\u{ff01}' {
            Some(confusable_msg("\u{ff01} (fullwidth exclamation mark)", "! (exclamation mark)"))
        } else if ch == '\u{1c3}' {
            Some(confusable_msg("\u{1c3} (latin letter retroflex click)", "! (exclamation mark)"))
        } else if ch == '\u{2024}' {
            Some(confusable_msg("\u{2024} (one dot leader)", ". (full stop)"))
        } else {
            None
        }
    }

    /// Reads the next token: skips whitespace and comments (see
    /// [`skip_trivia`]), then reads the token that starts there (see
    /// [`lexed`]). A character that starts no token is consumed and
    /// reported, and no token is returned.
    fn _next(&mut self) -> (r: Option<Token>)
        requires
            old(self).wf(),
        ensures
            final(self).wf(),
            final(self).current == old(self).current,
            lex_step(*old(self), *final(self), r),
        decreases old(self).input.code().len() - old(self).input.pos(),
    {
        let ghost i0 = self.input;
        let ghost s = i0.code();
        let ghost p = i0.pos() as int;
        proof {
            lemma_adv(i0, 0);
            lemma_adv(i0, 1);
            lemma_adv(i0, 2);
            lemma_skip_trivia(s, p);
            assert(self.errors@.take(self.errors@.len() as int) =~= self.errors@);
            assert(i0.advanced(0) == i0);
            reveal(lexeme_errors);
        }
        if self.input.is_eof() {
            return None;
        }
        self.last_loc = self.input.loc();
        let tok = self.input.peek(0).unwrap();
        if tok == '/' {
            match self.input.peek(1) {
                None => {
                    return None;
                },
                Some(nx) => {
                    if nx == '/' {
                        self.input.consume();
                        self.input.consume();
                        proof {
                            lemma_find_char(s, p + 2, '\n');
                        }
                        while !self.input.is_eof()
                            invariant_except_break
                                find_char(s, p + 2, '\n') == find_char(s, self.input.pos() as int, '\n'),
                            invariant
                                i0 == old(self).input,
                                i0.wf(),
                                s == i0.code(),
                                p == i0.pos(),
                                p + 2 <= self.input.pos() <= s.len(),
                                self.input.wf(),
                                self.input.code() == s,
                                self.input == i0.advanced((self.input.pos() - p) as nat),
                                self.current == old(self).current,
                                self.filename == old(self).filename,
                                self.errors == old(self).errors,
                                self.is_last_num_as_str == old(self).is_last_num_as_str,
                                self.last_loc == i0.spec_loc(),
                            ensures
                                self.input.pos() == (if find_char(s, p + 2, '\n') < s.len() {
                                    find_char(s, p + 2, '\n') + 1
                                } else {
                                    s.len() as int
                                }),
                            decreases s.len() - self.input.pos(),
                        {
                            proof {
                                lemma_adv(i0, (self.input.pos() - p) as nat);
                            }
                            let ghost q = self.input.pos() as int;
                            let c = self.input.consume().unwrap();
                            if c == '\n' {
                                assert(find_char(s, q, '\n') == q);
                                break;
                            }
                        }
                        proof {
                            lemma_adv(i0, (self.input.pos() - p) as nat);
                            lemma_resume_trivia(i0, self.input.pos() as int);
                        }
                        let r = self._next();
                        return r;
                    }
                    if nx == '*' {
                        self.input.consume();
                        proof {
                            lemma_block_end(s, p + 1);
                        }
                        let mut closed = false;
                        while !self.input.is_eof()
                            invariant_except_break
                                block_end(s, p + 1) == block_end(s, self.input.pos() as int),
                                !closed,
                            invariant
                                old(self).errors@.take(old(self).errors@.len() as int) == old(
                                    self,
                                ).errors@,
                                i0.advanced(0) == i0,
                                p + 1 < s.len(),
                                s[p] == '/',
                                s[p + 1] == '*',
                                i0 == old(self).input,
                                i0.wf(),
                                s == i0.code(),
                                p == i0.pos(),
                                p + 1 <= self.input.pos() <= s.len(),
                                self.input.wf(),
                                self.input.code() == s,
                                self.input == i0.advanced((self.input.pos() - p) as nat),
                                self.current == old(self).current,
                                self.filename == old(self).filename,
                                self.errors == old(self).errors,
                                self.is_last_num_as_str == old(self).is_last_num_as_str,
                                self.last_loc == i0.spec_loc(),
                            ensures
                                closed ==> block_end(s, p + 1) < s.len() && self.input.pos()
                                    == block_end(s, p + 1) + 1,
                                !closed ==> block_end(s, p + 1) == s.len() && self.input.pos()
                                    == s.len(),
                            decreases s.len() - self.input.pos(),
                        {
                            proof {
                                lemma_adv(i0, (self.input.pos() - p) as nat);
                            }
                            let ghost q = self.input.pos() as int;
                            let c = self.input.consume().unwrap();
                            proof {
                                lemma_adv(i0, (self.input.pos() - p) as nat);
                            }
                            if c == '*' {
                                match self.input.peek(0) {
                                    None => {
                                        assert(block_end(s, q + 1) == s.len());
                                        return None;
                                    },
                                    Some(n2) => {
                                        if n2 == '/' {
                                            assert(block_end(s, q) == q);
                                            closed = true;
                                            break;
                                        }
                                    },
                                }
                            }
                        }
                        proof {
                            lemma_adv(i0, (self.input.pos() - p) as nat);
                            if !closed {
                                i0.advanced((s.len() - p) as nat).lemma_step();
                            }
                        }
                        self.input.consume();
                        proof {
                            lemma_adv(i0, (self.input.pos() - p) as nat);
                            lemma_resume_trivia(i0, self.input.pos() as int);
                            if !closed {
                                i0.advanced((s.len() - p) as nat).lemma_step();
                            }
                        }
                        let r = self._next();
                        return r;
                    }
                },
            }
        }
        proof {
            if is_lexeme_start(tok) {
                lemma_lexeme_progress(s, p, self.is_last_num_as_str);
            }
        }
        if tok == '\'' {
            let t = self.parse_char();
            proof {
                i0.lemma_advanced(3);
            }
            Some(t)
        } else if tok == '"' {
            let t = self.parse_str('"');
            proof {
                let q = find_char(s, p + 1, '"');
                let e = if q < s.len() { q + 1 } else { s.len() as int };
                i0.lemma_advanced((e - p) as nat);
            }
            Some(t)
        } else if tok == '`' {
            self.input.consume();
            Some(Token { val: TokenType::TempStrStart, range: self.range_here() })
        } else if '0' <= tok && tok <= '9' {
            let t = self.parse_num();
            proof {
                let r = scan_num(s, p, NumScan::start(), self.is_last_num_as_str);
                let suffixed = !r.early && has_suffix(s, r.end);
                let e = if suffixed { r.end + 1 } else { r.end };
                i0.lemma_advanced((e - p) as nat);
            }
            Some(t)
        } else if tok == ' ' || tok == '\n' || tok == '\t' || tok == '\r' {
            self.input.consume();
            proof {
                lemma_resume_trivia(i0, p + 1);
            }
            self._next()
        } else if op_char(tok) {
            let t = self.parse_op();
            proof {
                i0.lemma_advanced((op_end(s, p, p) - p) as nat);
            }
            Some(t)
        } else if tok == ',' || tok == ':' || tok == ';' || tok == '{' || tok == '}' || tok == '['
            || tok == ']' || tok == '(' || tok == ')' || tok == '#' {
            Some(self.parse_punc())
        } else if ('a' <= tok && tok <= 'z') || ('A' <= tok && tok <= 'Z') || tok == '_' {
            let t = self.parse_ident();
            proof {
                i0.lemma_advanced((ident_end(s, p) - p) as nat);
            }
            Some(t)
        } else {
            let loc = self.input.loc();
            self.input.consume();
            match Self::is_confusable(tok) {
                Some(msg) => {
                    self.errors.push(BaseError::new(msg, loc.to_range()));
                },
                None => {
                    let text = char_to_string(tok);
                    let vars = vec![text.as_str()];
                    assert(str_views(vars@) =~= seq![seq![tok]]);
                    let e = err(DiagnosticId::InvalidChar, loc.to_range(), vars);
                    self.errors.push(e);
                },
            }
            proof {
                assert(self.errors@.take(old(self).errors@.len() as int) =~= old(self).errors@);
            }
            None
        }
    }

    /// Reads the operator characters that follow `start_of_op` and returns
    /// them after it.
    pub fn parse_full_op(&mut self, start_of_op: Option<char>) -> (op: String)
        requires
            old(self).wf(),
        ensures
            final(self).wf(),
            only_input_moved(*old(self), *final(self)),
            ({
                let s = old(self).input.code();
                let p = old(self).input.pos() as int;
                let e = op_run_end(s, p);
                let prefix = match start_of_op {
                    Some(c) => seq![c],
                    None => Seq::<char>::empty(),
                };
                &&& final(self).input == old(self).input.advanced((e - p) as nat)
                &&& op@ == prefix + s.subrange(p, e)
            }),
    {
        let ghost i0 = self.input;
        let ghost s = i0.code();
        let ghost p = i0.pos() as int;
        let ghost prefix = match start_of_op {
            Some(c) => seq![c],
            None => Seq::<char>::empty(),
        };
        proof {
            lemma_op_run_end(s, p);
            lemma_adv(i0, 0);
        }
        let mut op = String::new();
        if let Some(c) = start_of_op {
            push_char(&mut op, c);
        }
        assert(op@ =~= prefix + s.subrange(p, p));
        while !self.input.is_eof()
            invariant
                i0.wf(),
                s == i0.code(),
                p == i0.pos(),
                self.input.wf(),
                self.input.code() == s,
                p <= self.input.pos() <= s.len(),
                op_run_end(s, self.input.pos() as int) == op_run_end(s, p),
                self.input == i0.advanced((self.input.pos() - p) as nat),
                op@ == prefix + s.subrange(p, self.input.pos() as int),
                only_input_moved(*old(self), *self),
            ensures
                self.input.pos() == op_run_end(s, p),
            decreases s.len() - self.input.pos(),
        {
            proof {
                lemma_adv(i0, (self.input.pos() - p) as nat);
            }
            let ch = self.input.peek(0).unwrap();
            if op_char(ch) {
                let c = self.input.consume().unwrap();
                push_char(&mut op, c);
                proof {
                    assert(op@ =~= prefix + s.subrange(p, self.input.pos() as int));
                }
            } else {
                break;
            }
        }
        proof {
            lemma_adv(i0, (self.input.pos() - p) as nat);
        }
        op
    }
}


/// Remembers where a construct started, to build its range when it ends.
pub struct RangeRecorder {
    pub start: LoC,
}

impl RangeRecorder {
    /// Starts at the beginning of the lexer's last token.
    pub fn new(tok: &Tokenizer) -> (r: Self)
        ensures
            r.start == tok.last_loc,
    {
        RangeRecorder { start: tok.last_loc }
    }

    /// The range from the start to the lexer's cursor.
    pub fn end(&self, tok: &Tokenizer) -> (r: Range)
        requires
            tok.wf(),
        ensures
            r == (Range { start: self.start, end: tok.input.spec_loc() }),
    {
        Range { start: self.start, end: tok.input.loc() }
    }

    /// The range from the start to `loc`.
    pub fn end_with(&self, loc: LoC) -> (r: Range)
        ensures
            r == (Range { start: self.start, end: loc }),
    {
        Range { start: self.start, end: loc }
    }

    /// Records the error `err` over the range from the start to the cursor.
    pub fn err(&self, err: ParserErrorType, tok: &mut Tokenizer)
        requires
            old(tok).wf(),
        ensures
            final(tok).wf(),
            final(tok).input == old(tok).input,
            final(tok).current == old(tok).current,
            final(tok).last_loc == old(tok).last_loc,
            final(tok).filename == old(tok).filename,
            final(tok).is_last_num_as_str == old(tok).is_last_num_as_str,
            final(tok).errors@.len() == old(tok).errors@.len() + 1,
            final(tok).errors@.drop_last() == old(tok).errors@,
            final(tok).errors@.last().msg@ == parser_error_text(err),
            final(tok).errors@.last().range == (Range {
                start: self.start,
                end: old(tok).input.spec_loc(),
            }),
    {
        let range = Range { start: self.start, end: tok.input.loc() };
        let e = BaseError::new(err.message(), range);
        tok.errors.push(e);
        assert(tok.errors@.drop_last() =~= old(tok).errors@);
    }
}

} // verus!
