//! Macro declarations written as a name and a parameter list, such as
//! `name(item, rest; tail*)`: each parameter with the separator that
//! follows it and how often it repeats.
use vstd::prelude::*;
use std::collections::HashMap;
use crate::diagnostics::{DiagnosticId, err, error_is, str_views};
use crate::text::str_eq;
use crate::parser::{
    lemma_then_token, then_token, lemma_next_or_none, lemma_next_token_unique, lemma_taken_unique, next_token, no_next_token,
};
use crate::tokenizer::{Token, TokenType, TokenVal, Tokenizer, input_spent, lemma_lex_none, lex_read};

verus! {

/// How often a macro parameter repeats.
pub enum RepeatTypes {
    ZeroOrMore,
    OneOrMore,
    NoneValue,
}

/// A macro parameter: its name, the separator that follows it, and how
/// often it repeats.
pub struct MacroParameter {
    pub name: String,
    pub followed_by: Option<char>,
    pub repeat_type: RepeatTypes,
}

/// A declared macro: its parameters and the tokens of its body.
pub struct Macro {
    pub params: Vec<MacroParameter>,
    pub body: Vec<Token>,
}

/// The macros declared so far, by name.
pub struct MacroParser {
    macros: HashMap<String, Macro>,
}

/// The parameter repeats.
pub open spec fn repeats(p: MacroParameter) -> bool {
    !(p.repeat_type is NoneValue)
}

/// At most one parameter of the list repeats.
pub open spec fn at_most_one_repeat(ps: Seq<MacroParameter>) -> bool {
    forall|i: int, j: int|
        0 <= i < j < ps.len() ==> !(repeats(#[trigger] ps[i]) && repeats(#[trigger] ps[j]))
}

/// What follows a parameter's name.
enum Separator {
    /// A separator character, taken.
    Take(char),
    /// The `)` that ends the list, taken.
    Close,
    /// A repeat operator with no separator before it.
    RepeatFirst,
    /// Anything else.
    Invalid,
}

/// `b` is `a` with one more error: "Expected `what`." at the start of the
/// last token.
pub open spec fn expected_added(a: Tokenizer, b: Tokenizer, what: Seq<char>) -> bool {
    &&& b.errors@.len() == a.errors@.len() + 1
    &&& b.errors@.take(a.errors@.len() as int) == a.errors@
    &&& error_is(
        b.errors@.last(),
        DiagnosticId::Expected,
        seq![what],
        crate::errors::Range { start: a.last_loc, end: a.last_loc },
    )
    &&& b.current == a.current
    &&& b.input == a.input
    &&& b.filename == a.filename
    &&& b.last_loc == a.last_loc
    &&& b.is_last_num_as_str == a.is_last_num_as_str
}

/// Records the error "Expected `what`." at the start of the last token.
fn expected_here(tokens: &mut Tokenizer, what: &str)
    requires
        old(tokens).wf(),
    ensures
        expected_added(*old(tokens), *final(tokens), what@),
        Tokenizer::moved_on(*old(tokens), *final(tokens)),
{
    let vars = vec![what];
    assert(str_views(vars@) =~= seq![what@]);
    let e = err(DiagnosticId::Expected, tokens.range_here(), vars);
    tokens.errors.push(e);
    assert(tokens.errors@.take(old(tokens).errors@.len() as int) =~= old(tokens).errors@);
}

impl MacroParser {
    /// The declared macros.
    pub closed spec fn declared(&self) -> Map<String, Macro> {
        self.macros@
    }

    /// A parser that knows no macro yet.
    pub fn new() -> (p: Self)
        ensures
            p.declared() == Map::<String, Macro>::empty(),
    {
        MacroParser { macros: HashMap::new() }
    }

    /// Reads the parameters of a declaration up to the `)` that ends the
    /// list (not taken). Each is a name, then a separator (`|`, `.`, `;`,
    /// `,` or `:`, taken; a `)` there is taken too and ends nothing), then
    /// an optional `+` or `*`. A missing or misplaced separator and a
    /// second repeating parameter are recorded as errors and reading goes
    /// on; a name that is not an identifier ends it with `None`, and so
    /// does the end of the input.
    fn parse_params(tokens: &mut Tokenizer) -> (r: Option<Vec<MacroParameter>>)
        requires
            old(tokens).wf(),
        ensures
            final(tokens).is_last_num_as_str == old(tokens).is_last_num_as_str,
            Tokenizer::moved_on(*old(tokens), *final(tokens)),
            r is Some ==> final(tokens).current is Some && final(tokens).current->0.val@
                == TokenVal::Punc(')'),
            r is Some && final(tokens).errors@.len() == old(tokens).errors@.len()
                ==> at_most_one_repeat(r->0@),
            r is None ==> input_spent(*final(tokens)) || final(tokens).errors@.len() > old(
                tokens,
            ).errors@.len(),
    {
        let mut params: Vec<MacroParameter> = Vec::new();
        let mut has_repeat = false;
        loop
            invariant
                tokens.wf(),
                tokens.is_last_num_as_str == old(tokens).is_last_num_as_str,
                Tokenizer::moved_on(*old(tokens), *tokens),
                has_repeat == exists|i: int| 0 <= i < params@.len() && repeats(#[trigger] params@[i]),
                tokens.errors@.len() == old(tokens).errors@.len() ==> at_most_one_repeat(params@),
            ensures
                tokens.current is Some && tokens.current->0.val@ == TokenVal::Punc(')'),
            decreases tokens.remaining(),
        {
            let at_close = match tokens.peek() {
                Some(t) => t.val.same(&TokenType::Punc(')')),
                None => false,
            };
            if at_close {
                break;
            }
            let ghost pre = *tokens;
            let name_tok = match tokens.consume() {
                None => {
                    proof {
                        lemma_lex_none(pre, *tokens);
                    }
                    return None;
                },
                Some(t) => t,
            };
            let name = match name_tok.val {
                TokenType::Var(v) => v,
                _ => {
                    expected_here(tokens, "Macro parameter name");
                    return None;
                },
            };
            let ghost pre = *tokens;
            let sep = match tokens.peek() {
                None => {
                    proof {
                        lemma_lex_none(pre, *tokens);
                    }
                    return None;
                },
                Some(t) => match &t.val {
                    TokenType::Op(op) => {
                        if str_eq(op.as_str(), "+") || str_eq(op.as_str(), "*") {
                            Separator::RepeatFirst
                        } else if str_eq(op.as_str(), "|") {
                            Separator::Take('|')
                        } else if str_eq(op.as_str(), ".") {
                            Separator::Take('.')
                        } else {
                            Separator::Invalid
                        }
                    },
                    TokenType::Punc(p) => {
                        if *p == ';' || *p == ',' || *p == ':' {
                            Separator::Take(*p)
                        } else if *p == ')' {
                            Separator::Close
                        } else {
                            Separator::Invalid
                        }
                    },
                    _ => Separator::Invalid,
                },
            };
            let followed_by = match sep {
                Separator::Take(c) => {
                    tokens.consume();
                    Some(c)
                },
                Separator::Close => {
                    tokens.consume();
                    None
                },
                Separator::RepeatFirst => {
                    expected_here(tokens, "Separator before repeat operator");
                    None
                },
                Separator::Invalid => {
                    expected_here(tokens, "Invalid separator");
                    None
                },
            };
            let ghost pre = *tokens;
            let repeat = match tokens.peek() {
                None => {
                    proof {
                        lemma_lex_none(pre, *tokens);
                    }
                    return None;
                },
                Some(t) => match &t.val {
                    TokenType::Op(op) => {
                        if str_eq(op.as_str(), "+") {
                            RepeatTypes::OneOrMore
                        } else if str_eq(op.as_str(), "*") {
                            RepeatTypes::ZeroOrMore
                        } else {
                            RepeatTypes::NoneValue
                        }
                    },
                    _ => RepeatTypes::NoneValue,
                },
            };
            let repeat_type = match repeat {
                RepeatTypes::NoneValue => RepeatTypes::NoneValue,
                kind => {
                    if has_repeat {
                        expected_here(tokens, "Multiple repeat parameters are not allowed.");
                    }
                    tokens.consume();
                    has_repeat = true;
                    kind
                },
            };
            let ghost before = params@;
            params.push(MacroParameter { name, followed_by, repeat_type });
            proof {
                assert(params@ == before.push(params@.last()));
                assert forall|i: int| 0 <= i < before.len() implies params@[i] == before[i] by {}
            }
        }
        Some(params)
    }

    /// Reads a macro declaration: its name, its parenthesized parameter
    /// list and the `{` that opens its body. Problems are recorded as
    /// errors in `tokens`; the declaration is not stored, and the result is
    /// always `None`.
    pub fn parse_macro(&mut self, tokens: &mut Tokenizer) -> (r: Option<bool>)
        requires
            old(tokens).wf(),
        ensures
            r is None,
            final(self).declared() == old(self).declared(),
            final(tokens).is_last_num_as_str == old(tokens).is_last_num_as_str,
            Tokenizer::moved_on(*old(tokens), *final(tokens)),
            (exists|t: Token| next_token(*old(tokens), t)) ==> final(tokens).remaining() < old(
                tokens,
            ).remaining(),
            (exists|t: Token| next_token(*old(tokens), t) && !(t.val@ is Var))
                ==> final(tokens).errors@.len() > old(tokens).errors@.len() && error_is(
                final(tokens).errors@.last(),
                DiagnosticId::Expected,
                seq!["Macro name"@],
                (crate::errors::Range { start: final(tokens).last_loc, end: final(tokens).last_loc }),
            ),
            forall|t: Token, u: Token|
                #[trigger] then_token(*old(tokens), t, u) && t.val@ is Var && u.val@ != TokenVal::Punc(
                    '(',
                ) ==> final(tokens).errors@.len() > old(tokens).errors@.len(),
    {
        let ghost start = *tokens;
        let name_tok = match tokens.consume() {
            None => {
                proof {
                    assert forall|t: Token| !next_token(start, t) by {
                        if next_token(start, t) {
                            lemma_next_or_none(start, t);
                            assert(lex_read(start, *tokens, None));
                            assert(no_next_token(start));
                        }
                    }
                    assert forall|t: Token, u: Token| !#[trigger] then_token(start, t, u) by {
                        if then_token(start, t, u) {
                            let b = choose|b: Tokenizer| #[trigger] crate::tokenizer::taken(start, b, t)
                                && next_token(b, u);
                            lemma_taken_unique(start, start, b, b, t, t);
                        }
                    }
                }
                return None;
            },
            Some(t) => t,
        };
        let ghost mid = *tokens;
        proof {
            lemma_taken_unique(start, start, mid, mid, name_tok, name_tok);
            assert forall|t: Token| next_token(start, t) implies t.val@ == name_tok.val@ by {
                lemma_next_token_unique(start, start, t, name_tok);
            }
        }
        match name_tok.val {
            TokenType::Var(_) => {},
            _ => {
                expected_here(tokens, "Macro name");
                return None;
            },
        }
        proof {
            assert forall|t: Token, u: Token| #[trigger] then_token(start, t, u) implies crate::parser::next_reads(
                mid,
                u.val@,
            ) && t.val@ == name_tok.val@ by {
                lemma_then_token(start, mid, name_tok, t, u);
            }
        }
        let opened = tokens.skip_or_err_here(TokenType::Punc('('));
        proof {
            if opened is Some {
                let x = choose|x: Token| x.val@ == TokenVal::Punc('(') && #[trigger] crate::tokenizer::taken(
                    mid,
                    *tokens,
                    x,
                );
                lemma_taken_unique(mid, mid, *tokens, *tokens, x, x);
            }
        }
        match Self::parse_params(tokens) {
            None => return None,
            Some(_) => {},
        }
        tokens.skip_or_err_here(TokenType::Punc(')'));
        tokens.skip_or_err_here(TokenType::Punc('{'));
        None
    }
}

} // verus!
