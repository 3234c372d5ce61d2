//! Macro definitions: their arms, each a pattern of arguments and a body
//! of tokens, read straight from the lexer.
use vstd::prelude::*;
use crate::ast::{ASTExpression, ASTStatement, ASTVar};
use crate::diagnostics::{DiagnosticId, err};
use crate::input_parser::InputSequence;
use crate::parser::{lemma_peek_finds, next_token};
use crate::text::str_eq;
use crate::tokenizer::{
    Token, TokenType, TokenVal, Tokenizer, ident_end, input_spent, is_ident_char, is_space_char,
    lemma_lex_none,
};

verus! {

/// What a typed macro argument must be.
pub enum MacroArgTypes {
    Identifier,
    Expression,
    Statement,
}

/// How often a repetition in a macro repeats.
pub enum MacroRepetitionKinds {
    ZeroOrMore,
    OneOrMore,
}

/// One element of a macro arm's pattern: an exact character, a typed
/// argument, or a repetition of typed arguments with a separator.
pub enum MacroArg {
    Exact(char),
    Typed { name: String, value: MacroArgTypes },
    Repetition { kind: MacroRepetitionKinds, name: String, value: MacroArgTypes, separator: char },
}

/// A token of a macro body: a plain token, a repetition (its kind, its
/// separator and the tokens repeated) or a variable.
pub enum MacroToken {
    Regular(Token),
    Repetition(MacroRepetitionKinds, Token, Vec<MacroToken>),
    Var(String),
}

/// One arm of a macro: the pattern of its arguments and its body.
pub struct MacroArm {
    pub args: Vec<MacroArg>,
    pub body: Vec<MacroToken>,
}

/// A macro: its arms, in the order they were written.
pub struct Macro(pub Vec<MacroArm>);

/// Every character of `s` may appear in an identifier.
pub open spec fn ident_text(s: Seq<char>) -> bool {
    forall|k: int| 0 <= k < s.len() ==> is_ident_char(#[trigger] s[k])
}

/// An argument of a pattern as the reader builds it: exact characters
/// are neither whitespace nor one of `$`, `+`, `*`, and argument names are
/// identifier text.
pub open spec fn arg_ok(a: MacroArg) -> bool {
    match a {
        MacroArg::Exact(c) => !is_space_char(c) && c != '$' && c != '+' && c != '*',
        MacroArg::Typed { name, .. } => ident_text(name@),
        MacroArg::Repetition { name, .. } => ident_text(name@),
    }
}

/// A token inside a repetition: a plain token or a variable whose name is
/// identifier text.
pub open spec fn plain_token(t: MacroToken) -> bool {
    match t {
        MacroToken::Regular(_) => true,
        MacroToken::Var(name) => ident_text(name@),
        MacroToken::Repetition(..) => false,
    }
}

/// A token of a body: plain, or a repetition whose separator is an
/// operator or a punctuation other than `(` and whose tokens are plain.
pub open spec fn body_token_ok(t: MacroToken) -> bool {
    match t {
        MacroToken::Repetition(_, sep, inner) => {
            &&& (sep.val@ is Op || (sep.val@ is Punc && sep.val@ != TokenVal::Punc('(')))
            &&& forall|k: int| 0 <= k < inner@.len() ==> plain_token(#[trigger] inner@[k])
        },
        _ => plain_token(t),
    }
}

impl MacroArm {
    /// The arm's arguments and body tokens are all well formed.
    pub open spec fn well_formed(&self) -> bool {
        &&& forall|k: int| 0 <= k < self.args@.len() ==> arg_ok(#[trigger] self.args@[k])
        &&& forall|k: int| 0 <= k < self.body@.len() ==> body_token_ok(#[trigger] self.body@[k])
    }
}

/// The argument type that a parameter names.
pub open spec fn arg_type_named(s: Seq<char>) -> Option<MacroArgTypes> {
    if s == "ident"@ {
        Some(MacroArgTypes::Identifier)
    } else if s == "expr"@ {
        Some(MacroArgTypes::Expression)
    } else if s == "stmt"@ {
        Some(MacroArgTypes::Statement)
    } else {
        None
    }
}

/// Argument `a` of a pattern starts at offset `p` of `code`: an exact
/// character is that character; a typed argument is `$` and its name; a
/// repetition is `+` (one or more) or `*` (zero or more) and its name, the
/// name being the identifier characters that follow the mark.
pub open spec fn arg_at(code: Seq<char>, p: int, a: MacroArg) -> bool {
    match a {
        MacroArg::Exact(x) => code[p] == x,
        MacroArg::Typed { name, .. } => code[p] == '$' && name@ == code.subrange(p + 1, ident_end(code, p + 1)),
        MacroArg::Repetition { kind, name, .. } => {
            &&& (code[p] == '+' && kind is OneOrMore) || (code[p] == '*' && kind is ZeroOrMore)
            &&& name@ == code.subrange(p + 1, ident_end(code, p + 1))
        },
    }
}

/// The arguments `args` were read in order from `code` between offsets
/// `from` and `to`, the `k`th starting at `starts[k]`.
pub open spec fn args_read_at(args: Seq<MacroArg>, starts: Seq<int>, code: Seq<char>, from: int, to: int) -> bool {
    &&& starts.len() == args.len()
    &&& forall|k: int| 0 <= k < args.len() ==> from <= #[trigger] starts[k] < to && arg_at(code, starts[k], args[k])
    &&& forall|j: int, k: int| 0 <= j < k < args.len() ==> #[trigger] starts[j] < #[trigger] starts[k]
}

/// The arguments `args` were read in order from `code` between offsets
/// `from` and `to`.
pub open spec fn args_read(args: Seq<MacroArg>, code: Seq<char>, from: int, to: int) -> bool {
    exists|starts: Seq<int>| #[trigger] args_read_at(args, starts, code, from, to)
}

/// Arguments read from a stretch of the input were read from any stretch
/// around it.
proof fn lemma_args_read_wider(args: Seq<MacroArg>, code: Seq<char>, from: int, to: int, from2: int, to2: int)
    requires
        args_read(args, code, from, to),
        from2 <= from,
        to <= to2,
    ensures
        args_read(args, code, from2, to2),
{
    let starts = choose|starts: Seq<int>| #[trigger] args_read_at(args, starts, code, from, to);
    assert(args_read_at(args, starts, code, from2, to2));
}

/// One more argument, read at offset `p` after those already read.
proof fn lemma_args_read_push(
    args: Seq<MacroArg>,
    starts: Seq<int>,
    code: Seq<char>,
    from: int,
    to: int,
    a: MacroArg,
    p: int,
    to2: int,
)
    requires
        args_read_at(args, starts, code, from, to),
        from <= p,
        to <= p,
        p < to2,
        arg_at(code, p, a),
    ensures
        args_read_at(args.push(a), starts.push(p), code, from, to2),
{
    let s2 = starts.push(p);
    let a2 = args.push(a);
    assert forall|k: int| 0 <= k < a2.len() implies from <= #[trigger] s2[k] < to2 && arg_at(code, s2[k], a2[k]) by {
        if k < args.len() {
            assert(s2[k] == starts[k] && a2[k] == args[k]);
        }
    }
    assert forall|j: int, k: int| 0 <= j < k < a2.len() implies #[trigger] s2[j] < #[trigger] s2[k] by {
        if k < args.len() {
            assert(s2[j] == starts[j] && s2[k] == starts[k]);
        } else {
            assert(s2[j] == starts[j]);
        }
    }
}

/// A pattern mark is read as the argument it stands for: `+name:type sep`
/// gives a repetition of one or more, `*name:type sep` one of zero or
/// more, `$name:type` a typed argument, each named by the identifier after
/// its mark; any other character is matched exactly.
pub proof fn lemma_pattern_marks(code: Seq<char>, p: int, a: MacroArg)
    requires
        arg_at(code, p, a),
    ensures
        code[p] == '+' && a is Repetition ==> a->kind is OneOrMore,
        code[p] == '*' && a is Repetition ==> a->kind is ZeroOrMore,
        a is Repetition ==> code[p] == '+' || code[p] == '*',
        a is Typed ==> code[p] == '$',
        a matches MacroArg::Exact(x) ==> code[p] == x,
{
}

/// The argument type named `ident`, `expr` or `stmt`.
fn arg_type_of(text: &str) -> (r: Option<MacroArgTypes>)
    ensures
        r == arg_type_named(text@),
{
    if str_eq(text, "ident") {
        Some(MacroArgTypes::Identifier)
    } else if str_eq(text, "expr") {
        Some(MacroArgTypes::Expression)
    } else if str_eq(text, "stmt") {
        Some(MacroArgTypes::Statement)
    } else {
        None
    }
}

/// Hands `c` back. A character taken from an `Option` returned by the
/// input reader is not known to the verifier to be a valid `char` until it
/// passes through a function that returns one, and holding it in a
/// sequence needs that.
fn valid_char(c: char) -> (r: char)
    ensures
        r == c,
{
    c
}

/// Whitespace between the parts of a macro.
fn is_blank(c: char) -> (r: bool)
    ensures
        r == is_space_char(c),
{
    c == ' ' || c == '\n' || c == '\t' || c == '\r'
}

/// A piece of syntax a macro argument matched.
pub enum ASTAny {
    Identifier(ASTVar),
    Expression(ASTExpression),
    Statement(ASTStatement),
}

/// What a macro argument matched: one piece, or several for a repetition.
pub enum MacroArgInstance {
    Multiple(Vec<ASTAny>),
    Single(ASTAny),
}

impl Macro {
    /// The arms of the macro.
    pub open spec fn arms(&self) -> Seq<MacroArm> {
        self.0@
    }

    /// Every arm of the macro is well formed.
    pub open spec fn well_formed(&self) -> bool {
        forall|k: int| 0 <= k < self.arms().len() ==> (#[trigger] self.arms()[k]).well_formed()
    }

    /// Reads the tokens of a repetition up to the `)` that closes it (the
    /// opening `(` was already taken) and takes that `)`. A `$` introduces a
    /// variable; nested parentheses are skipped and counted; whitespace is
    /// dropped; everything else is lexed into tokens.
    fn parse_rep(tokens: &mut Tokenizer) -> (r: Option<Vec<MacroToken>>)
        requires
            old(tokens).wf(),
        ensures
            final(tokens).is_last_num_as_str == old(tokens).is_last_num_as_str,
            Tokenizer::moved_on(*old(tokens), *final(tokens)),
            r is Some ==> forall|k: int| 0 <= k < r->0@.len() ==> plain_token(#[trigger] r->0@[k]),
            r is None ==> input_spent(*final(tokens)) || final(tokens).errors@.len() > old(
                tokens,
            ).errors@.len(),
    {
        let mut toks: Vec<MacroToken> = Vec::new();
        let mut depth: usize = 0;
        loop
            invariant
                tokens.wf(),
                tokens.is_last_num_as_str == old(tokens).is_last_num_as_str,
                Tokenizer::moved_on(*old(tokens), *tokens),
                old(tokens).wf(),
                depth <= tokens.input.pos() - old(tokens).input.pos(),
                forall|k: int| 0 <= k < toks@.len() ==> plain_token(#[trigger] toks@[k]),
            decreases tokens.remaining(), depth,
        {
            let next = tokens.input.peek(0);
            match next {
                None => break,
                Some(ch) => {
                    if ch == '$' {
                        tokens.consume_input();
                        let name = tokens.parse_text();
                        toks.push(MacroToken::Var(name));
                    } else if ch == '(' {
                        tokens.consume_input();
                        depth = depth + 1;
                    } else if ch == ')' {
                        if depth <= 1 {
                            tokens.consume_input();
                            break;
                        }
                        depth = depth - 1;
                    } else if is_blank(ch) {
                        tokens.consume_input();
                    } else {
                        let ghost pre = *tokens;
                        match tokens.consume() {
                            Some(t) => toks.push(MacroToken::Regular(t)),
                            None => {
                                proof {
                                    lemma_lex_none(pre, *tokens);
                                }
                                return None;
                            },
                        }
                    }
                },
            }
        }
        Some(toks)
    }

    /// Reads the pattern of an arm up to and including its `=>`, straight
    /// from the input: whitespace is dropped, `$name:type` is a typed
    /// argument, `+name:type` and `*name:type` are repetitions followed by
    /// their separator character, and any other character must appear
    /// exactly. Gives `None` when the input ends inside an argument or an
    /// error was recorded (an argument type other than `ident`, `expr` and
    /// `stmt`, or a missing `:`); stops quietly at the end of the input.
    fn parse_params(tokens: &mut Tokenizer) -> (r: Option<Vec<MacroArg>>)
        requires
            old(tokens).wf(),
        ensures
            final(tokens).is_last_num_as_str == old(tokens).is_last_num_as_str,
            Tokenizer::moved_on(*old(tokens), *final(tokens)),
            r is Some ==> forall|k: int| 0 <= k < r->0@.len() ==> arg_ok(#[trigger] r->0@[k]),
            r is Some ==> args_read(
                r->0@,
                old(tokens).input.code(),
                old(tokens).input.pos() as int,
                final(tokens).input.pos() as int,
            ),
            r is None ==> input_spent(*final(tokens)) || final(tokens).errors@.len() > old(
                tokens,
            ).errors@.len(),
    {
        let mut args: Vec<MacroArg> = Vec::new();
        let ghost code = old(tokens).input.code();
        let ghost from = old(tokens).input.pos() as int;
        let ghost mut starts: Seq<int> = Seq::empty();
        loop
            invariant
                tokens.wf(),
                tokens.is_last_num_as_str == old(tokens).is_last_num_as_str,
                Tokenizer::moved_on(*old(tokens), *tokens),
                forall|k: int| 0 <= k < args@.len() ==> arg_ok(#[trigger] args@[k]),
                code == old(tokens).input.code(),
                from == old(tokens).input.pos() as int,
                args_read_at(args@, starts, code, from, tokens.input.pos() as int),
            decreases tokens.remaining(),
        {
            let ghost p0 = tokens.input.pos() as int;
            proof {
                tokens.input.lemma_step();
            }
            let next = tokens.consume_input();
            if next.is_none() {
                break;
            }
            let ch = valid_char(next.unwrap());
            assert(ch == code[p0]);
            let ghost to0 = tokens.input.pos() as int;
            if is_blank(ch) {
            } else if ch == '=' {
                let after = match tokens.input.peek(0) {
                    None => return None,
                    Some(c) => c,
                };
                if after == '>' {
                    tokens.consume_input();
                    break;
                }
                proof {
                    lemma_args_read_push(args@, starts, code, from, p0, MacroArg::Exact(ch), p0, to0);
                    starts = starts.push(p0);
                }
                args.push(MacroArg::Exact(ch));
            } else if ch == '$' || ch == '+' || ch == '*' {
                let name = tokens.parse_text();
                assert(name@ == code.subrange(p0 + 1, ident_end(code, p0 + 1)));
                match tokens.skip_or_err_here(TokenType::Punc(':')) {
                    None => return None,
                    Some(_) => {},
                }
                let kind_text = tokens.parse_text();
                let value = match arg_type_of(kind_text.as_str()) {
                    Some(v) => v,
                    None => {
                        let vars = vec![kind_text.as_str()];
                        let e = err(DiagnosticId::InvalidMacroParam, tokens.range_here(), vars);
                        tokens.errors.push(e);
                        return None;
                    },
                };
                if ch == '$' {
                    proof {
                        lemma_args_read_push(
                            args@,
                            starts,
                            code,
                            from,
                            p0,
                            MacroArg::Typed { name, value },
                            p0,
                            tokens.input.pos() as int,
                        );
                        starts = starts.push(p0);
                    }
                    args.push(MacroArg::Typed { name, value });
                } else {
                    let kind = if ch == '+' {
                        MacroRepetitionKinds::OneOrMore
                    } else {
                        MacroRepetitionKinds::ZeroOrMore
                    };
                    let separator = match tokens.consume_input() {
                        None => return None,
                        Some(c) => valid_char(c),
                    };
                    proof {
                        lemma_args_read_push(
                            args@,
                            starts,
                            code,
                            from,
                            p0,
                            MacroArg::Repetition { kind, name, value, separator },
                            p0,
                            tokens.input.pos() as int,
                        );
                        starts = starts.push(p0);
                    }
                    args.push(MacroArg::Repetition { kind, name, value, separator });
                }
            } else {
                proof {
                    lemma_args_read_push(args@, starts, code, from, p0, MacroArg::Exact(ch), p0, to0);
                    starts = starts.push(p0);
                }
                args.push(MacroArg::Exact(ch));
            }
        }
        Some(args)
    }

    /// Reads the body of an arm after its `{`, up to and including the `}`
    /// that closes it: `$name` is a variable, `+` or `*` followed by a
    /// separator token (an operator or a punctuation other than `(`) and a
    /// parenthesized group is a repetition, nested braces are kept as
    /// tokens and counted, whitespace is dropped and everything else is
    /// lexed into tokens. Gives `None` when a token is missing or an error
    /// was recorded.
    fn parse_body(tokens: &mut Tokenizer) -> (r: Option<Vec<MacroToken>>)
        requires
            old(tokens).wf(),
        ensures
            final(tokens).is_last_num_as_str == old(tokens).is_last_num_as_str,
            Tokenizer::moved_on(*old(tokens), *final(tokens)),
            r is Some ==> forall|k: int| 0 <= k < r->0@.len() ==> body_token_ok(#[trigger] r->0@[k]),
            r is None ==> input_spent(*final(tokens)) || final(tokens).errors@.len() > old(
                tokens,
            ).errors@.len(),
    {
        let mut body: Vec<MacroToken> = Vec::new();
        let mut depth: usize = 0;
        loop
            invariant
                tokens.wf(),
                tokens.is_last_num_as_str == old(tokens).is_last_num_as_str,
                Tokenizer::moved_on(*old(tokens), *tokens),
                depth <= body@.len(),
                forall|k: int| 0 <= k < body@.len() ==> body_token_ok(#[trigger] body@[k]),
            decreases tokens.remaining(), depth,
        {
            let next = tokens.input.peek(0);
            let ch = match next {
                None => break,
                Some(c) => c,
            };
            if ch == '$' {
                tokens.consume_input();
                let name = tokens.parse_text();
                body.push(MacroToken::Var(name));
            } else if ch == '+' || ch == '*' {
                tokens.consume_input();
                let kind = if ch == '+' {
                    MacroRepetitionKinds::OneOrMore
                } else {
                    MacroRepetitionKinds::ZeroOrMore
                };
                let ghost pre = *tokens;
                let tok = match tokens.consume() {
                    None => {
                        proof {
                            lemma_lex_none(pre, *tokens);
                        }
                        return None;
                    },
                    Some(t) => t,
                };
                let separated = match &tok.val {
                    TokenType::Punc(p) => {
                        if *p == '(' {
                            let vars = vec!["separator", "start of repetition"];
                            let e = err(DiagnosticId::ExpectedFound, tokens.range_here(), vars);
                            tokens.errors.push(e);
                            return None;
                        }
                        true
                    },
                    TokenType::Op(_) => true,
                    _ => false,
                };
                if separated {
                    match tokens.skip_or_err_here(TokenType::Punc('(')) {
                        None => return None,
                        Some(_) => {},
                    }
                    let inner = match Self::parse_rep(tokens) {
                        None => return None,
                        Some(v) => v,
                    };
                    body.push(MacroToken::Repetition(kind, tok, inner));
                } else {
                    body.push(MacroToken::Regular(tok));
                }
            } else if ch == '{' {
                let ghost pre = *tokens;
                let t = match tokens.consume() {
                    None => {
                        proof {
                            lemma_lex_none(pre, *tokens);
                        }
                        return None;
                    },
                    Some(t) => t,
                };
                body.push(MacroToken::Regular(t));
                proof {
                    assert(body@.len() == body.len());
                }
                depth = depth + 1;
            } else if ch == '}' {
                if depth <= 1 {
                    tokens.consume();
                    break;
                }
                depth = depth - 1;
                tokens.consume();
            } else if is_blank(ch) {
                tokens.consume_input();
            } else {
                let ghost pre = *tokens;
                let t = match tokens.consume() {
                    None => {
                        proof {
                            lemma_lex_none(pre, *tokens);
                        }
                        return None;
                    },
                    Some(t) => t,
                };
                body.push(MacroToken::Regular(t));
            }
        }
        Some(body)
    }

    /// Reads the arms of a macro definition until a `}` (or the end of the
    /// input) and takes that `}`. An arm is a pattern up to `=>` and a body
    /// in braces. Gives `None` when the input ends inside an arm or an error
    /// was recorded.
    pub fn parse(tokens: &mut Tokenizer) -> (r: Option<Macro>)
        requires
            old(tokens).wf(),
        ensures
            final(tokens).is_last_num_as_str == old(tokens).is_last_num_as_str,
            Tokenizer::moved_on(*old(tokens), *final(tokens)),
            r is Some ==> r->0.well_formed(),
            old(tokens).current is Some && old(tokens).current->0.val@ == TokenVal::Punc('}')
                ==> r is Some && r->0.arms().len() == 0,
            r matches Some(m) && m.arms().len() == 0 ==> forall|t: Token| #[trigger]
                next_token(*old(tokens), t) ==> t.val@ == TokenVal::Punc('}'),
            r matches Some(m) ==> forall|k: int|
                0 <= k < m.arms().len() ==> args_read(
                    (#[trigger] m.arms()[k]).args@,
                    old(tokens).input.code(),
                    old(tokens).input.pos() as int,
                    final(tokens).input.pos() as int,
                ),
    {
        let mut arms: Vec<MacroArm> = Vec::new();
        let ghost code = old(tokens).input.code();
        let ghost from = old(tokens).input.pos() as int;
        loop
            invariant_except_break
                arms@.len() == 0 ==> *tokens == *old(tokens),
            invariant
                tokens.wf(),
                tokens.is_last_num_as_str == old(tokens).is_last_num_as_str,
                Tokenizer::moved_on(*old(tokens), *tokens),
                forall|k: int| 0 <= k < arms@.len() ==> (#[trigger] arms@[k]).well_formed(),
                old(tokens).current is Some && old(tokens).current->0.val@ == TokenVal::Punc('}')
                    ==> *tokens == *old(tokens) && arms@.len() == 0,
                code == old(tokens).input.code(),
                from == old(tokens).input.pos() as int,
                forall|k: int|
                    0 <= k < arms@.len() ==> args_read(
                        (#[trigger] arms@[k]).args@,
                        code,
                        from,
                        tokens.input.pos() as int,
                    ),
            ensures
                arms@.len() == 0 ==> forall|t: Token| #[trigger]
                    next_token(*old(tokens), t) ==> t.val@ == TokenVal::Punc('}'),
            decreases tokens.remaining(),
        {
            let ghost h = *tokens;
            let ghost loop_start = tokens.input.pos() as int;
            let closing = tokens.is_next(TokenType::Punc('}'));
            proof {
                assert forall|k: int| 0 <= k < arms@.len() implies args_read(
                    (#[trigger] arms@[k]).args@,
                    code,
                    from,
                    tokens.input.pos() as int,
                ) by {
                    lemma_args_read_wider(arms@[k].args@, code, from, loop_start, from, tokens.input.pos() as int);
                }
                if arms@.len() == 0 {
                    assert forall|t: Token| #[trigger] next_token(*old(tokens), t) implies tokens.current
                        is Some && tokens.current->0.val@ == t.val@ by {
                        lemma_peek_finds(h, *tokens, t);
                    }
                }
            }
            if closing {
                break;
            }
            let ghost at_args = tokens.input.pos() as int;
            let args = match Self::parse_params(tokens) {
                None => return None,
                Some(a) => a,
            };
            let ghost args_end = tokens.input.pos() as int;
            match tokens.skip_or_err_here(TokenType::Punc('{')) {
                None => return None,
                Some(_) => {},
            }
            let body = match Self::parse_body(tokens) {
                None => return None,
                Some(b) => b,
            };
            let ghost before = arms@;
            let ghost to = tokens.input.pos() as int;
            proof {
                lemma_args_read_wider(args@, code, at_args, args_end, from, to);
            }
            arms.push(MacroArm { args, body });
            proof {
                assert forall|k: int| 0 <= k < arms@.len() implies args_read(
                    (#[trigger] arms@[k]).args@,
                    code,
                    from,
                    tokens.input.pos() as int,
                ) by {
                    if k < before.len() {
                        assert(arms@[k] == before[k]);
                        lemma_args_read_wider(before[k].args@, code, from, loop_start, from, to);
                    }
                }
            }
        }
        let ghost end_loop = tokens.input.pos() as int;
        let ghost final_arms = arms@;
        tokens.consume();
        proof {
            assert forall|k: int| 0 <= k < final_arms.len() implies args_read(
                (#[trigger] final_arms[k]).args@,
                code,
                from,
                tokens.input.pos() as int,
            ) by {
                lemma_args_read_wider(final_arms[k].args@, code, from, end_loop, from, tokens.input.pos() as int);
            }
        }
        Some(Macro(arms))
    }
}

} // verus!

