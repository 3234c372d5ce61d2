//! The recursive-descent parser: turns the token stream into statements.
use vstd::prelude::*;
use crate::ast::{
    ASTBinary, ASTBlock, ASTBool, ASTBoundTyping, ASTCall, ASTChar, ASTCombineTyping, ASTDeclare, ASTDeclareTypes, ASTDotAccess, ASTEnumDeclaration, ASTExport, ASTExpression, ASTExpressionList, ASTFloat, ASTForIn, ASTFunction, ASTIf, ASTImpl, ASTImplTyping, ASTImport, ASTImportItem, ASTImportThing, ASTIndexAccess, ASTInitializor, ASTInt, ASTIterator, ASTListTyping, ASTMain, ASTMatch, ASTMatchArm, ASTMatchArmExpressions, ASTMeta, ASTModAccess, ASTModAccessValues, ASTModifiers, ASTOptional, ASTPairList, ASTPairListTyping, ASTPairTypingItem, ASTSpread, ASTStatement, ASTStatic, ASTStr, ASTStruct, ASTTempStr, ASTType, ASTTypings, ASTUnary, ASTVar, ASTVarList, ASTVarTyping, ASTWhile, ASTYield, ASTAwait, full_expression_range, is_natural_iter, is_natural_tuple, is_natural_mod_access, natural_iter, natural_list, natural_mod_access,
};
use crate::diagnostics::{DiagnosticId, diagnostic_arity, err, error_is, str_views};
use crate::errors::{BaseError, ErrorLabel, ErrorLabelVariants, LoC, Range};
use crate::input_parser::InputSequence;
use crate::text::{i32_to_string, int_text, str_eq, to_owned_string};
use crate::tokenizer::{Token, TokenType, TokenVal, Tokenizer, lex_read, peeked, taken};

verus! {

/// The result of a parsing step.
pub type LazyResult<T> = Result<T, BaseError>;

/// An error from the catalogue without arguments.
fn err0(id: DiagnosticId, range: Range) -> (e: BaseError)
    ensures
        error_is(e, id, Seq::empty(), range),
{
    let vars: Vec<&str> = Vec::new();
    assert(str_views(vars@) =~= Seq::<Seq<char>>::empty());
    err(id, range, vars)
}

/// An error from the catalogue with one argument.
fn err1(id: DiagnosticId, range: Range, a: &str) -> (e: BaseError)
    requires
        diagnostic_arity(id) <= 1,
    ensures
        error_is(e, id, seq![a@], range),
{
    let vars = vec![a];
    assert(str_views(vars@) =~= seq![a@]);
    err(id, range, vars)
}

/// An error from the catalogue with two arguments.
fn err2(id: DiagnosticId, range: Range, a: &str, b: &str) -> (e: BaseError)
    requires
        diagnostic_arity(id) <= 2,
    ensures
        error_is(e, id, seq![a@, b@], range),
{
    let vars = vec![a, b];
    assert(str_views(vars@) =~= seq![a@, b@]);
    err(id, range, vars)
}

/// An error from the catalogue with one argument and a help note.
fn err1_help(id: DiagnosticId, range: Range, a: &str, help: &str) -> (e: BaseError)
    requires
        diagnostic_arity(id) <= 1,
    ensures
        e.msg@ == crate::diagnostics::formatted(crate::diagnostics::diagnostic_text(id), seq![a@]),
        e.range == range,
        e.labels@.len() == 1,
        e.labels@[0].msg@ == help@,
        e.labels@[0].variant is Help,
{
    let base = err1(id, range, a);
    let label = ErrorLabel { msg: to_owned_string(help), variant: ErrorLabelVariants::Help };
    BaseError::new_with_labels(base.msg, range, vec![label])
}

/// The precedence of a binary operator; -1 when it is none.
pub open spec fn precedence(op: Seq<char>) -> i8 {
    if op == "="@ || op == "+="@ || op == "-="@ || op == "*="@ || op == "/="@ || op == "%="@ {
        1
    } else if op == "&"@ || op == "|"@ || op == "^"@ {
        2
    } else if op == "<<"@ {
        3
    } else if op == "||"@ {
        5
    } else if op == "&&"@ {
        7
    } else if op == "<"@ || op == ">"@ || op == "<="@ || op == ">="@ || op == "=="@ || op == "!="@ {
        10
    } else if op == "+"@ || op == "-"@ {
        15
    } else if op == "*"@ || op == "/"@ || op == "%"@ {
        20
    } else {
        -1i8
    }
}

/// The binary operators bind in this order, loosest first: the
/// assignments (`=`, `+=`, `-=`, `*=`, `/=`, `%=`), the bit operators `&`,
/// `|` and `^`, `<<`, `||`, `&&`, the comparisons, `+` and `-`, then `*`,
/// `/` and `%`; so `a || b && c` groups as `a || (b && c)` and
/// `a + b * c` as `a + (b * c)`. A word that is none of them is no binary
/// operator.
pub proof fn lemma_precedence_order()
    ensures
        precedence("="@) == 1,
        precedence("+="@) == 1,
        precedence("-="@) == 1,
        precedence("*="@) == 1,
        precedence("/="@) == 1,
        precedence("%="@) == 1,
        precedence("&"@) == 2,
        precedence("|"@) == 2,
        precedence("^"@) == 2,
        precedence("<<"@) == 3,
        precedence("||"@) == 5,
        precedence("&&"@) == 7,
        precedence("<"@) == 10,
        precedence(">"@) == 10,
        precedence("<="@) == 10,
        precedence(">="@) == 10,
        precedence("=="@) == 10,
        precedence("!="@) == 10,
        precedence("+"@) == 15,
        precedence("-"@) == 15,
        precedence("*"@) == 20,
        precedence("/"@) == 20,
        precedence("%"@) == 20,
        precedence("&&"@) > precedence("||"@),
        precedence("||"@) > precedence("<<"@),
        precedence("*"@) > precedence("+"@),
        precedence("+"@) > precedence("=="@),
        precedence("=="@) > precedence("&&"@),
        precedence("<<"@) > precedence("&"@),
        precedence("&"@) > precedence("="@),
        precedence("."@) == -1,
        precedence("=>"@) == -1,
        precedence("!"@) == -1,
{
    assert(precedence("="@) == 1) by {
        reveal_strlit("=");
        reveal_strlit("+=");
        assert(("="@).len() != ("+="@).len());
        reveal_strlit("-=");
        assert(("="@).len() != ("-="@).len());
        reveal_strlit("*=");
        assert(("="@).len() != ("*="@).len());
        reveal_strlit("/=");
        assert(("="@).len() != ("/="@).len());
        reveal_strlit("%=");
        assert(("="@).len() != ("%="@).len());
        reveal_strlit("&");
        assert(("="@)[0] != ("&"@)[0]);
        reveal_strlit("|");
        assert(("="@)[0] != ("|"@)[0]);
        reveal_strlit("^");
        assert(("="@)[0] != ("^"@)[0]);
        reveal_strlit("<<");
        assert(("="@).len() != ("<<"@).len());
        reveal_strlit("||");
        assert(("="@).len() != ("||"@).len());
        reveal_strlit("&&");
        assert(("="@).len() != ("&&"@).len());
        reveal_strlit("<");
        assert(("="@)[0] != ("<"@)[0]);
        reveal_strlit(">");
        assert(("="@)[0] != (">"@)[0]);
        reveal_strlit("<=");
        assert(("="@).len() != ("<="@).len());
        reveal_strlit(">=");
        assert(("="@).len() != (">="@).len());
        reveal_strlit("==");
        assert(("="@).len() != ("=="@).len());
        reveal_strlit("!=");
        assert(("="@).len() != ("!="@).len());
        reveal_strlit("+");
        assert(("="@)[0] != ("+"@)[0]);
        reveal_strlit("-");
        assert(("="@)[0] != ("-"@)[0]);
        reveal_strlit("*");
        assert(("="@)[0] != ("*"@)[0]);
        reveal_strlit("/");
        assert(("="@)[0] != ("/"@)[0]);
        reveal_strlit("%");
        assert(("="@)[0] != ("%"@)[0]);
    }
    assert(precedence("+="@) == 1) by {
        reveal_strlit("+=");
        reveal_strlit("=");
        assert(("+="@).len() != ("="@).len());
        reveal_strlit("-=");
        assert(("+="@)[0] != ("-="@)[0]);
        reveal_strlit("*=");
        assert(("+="@)[0] != ("*="@)[0]);
        reveal_strlit("/=");
        assert(("+="@)[0] != ("/="@)[0]);
        reveal_strlit("%=");
        assert(("+="@)[0] != ("%="@)[0]);
        reveal_strlit("&");
        assert(("+="@).len() != ("&"@).len());
        reveal_strlit("|");
        assert(("+="@).len() != ("|"@).len());
        reveal_strlit("^");
        assert(("+="@).len() != ("^"@).len());
        reveal_strlit("<<");
        assert(("+="@)[0] != ("<<"@)[0]);
        reveal_strlit("||");
        assert(("+="@)[0] != ("||"@)[0]);
        reveal_strlit("&&");
        assert(("+="@)[0] != ("&&"@)[0]);
        reveal_strlit("<");
        assert(("+="@).len() != ("<"@).len());
        reveal_strlit(">");
        assert(("+="@).len() != (">"@).len());
        reveal_strlit("<=");
        assert(("+="@)[0] != ("<="@)[0]);
        reveal_strlit(">=");
        assert(("+="@)[0] != (">="@)[0]);
        reveal_strlit("==");
        assert(("+="@)[0] != ("=="@)[0]);
        reveal_strlit("!=");
        assert(("+="@)[0] != ("!="@)[0]);
        reveal_strlit("+");
        assert(("+="@).len() != ("+"@).len());
        reveal_strlit("-");
        assert(("+="@).len() != ("-"@).len());
        reveal_strlit("*");
        assert(("+="@).len() != ("*"@).len());
        reveal_strlit("/");
        assert(("+="@).len() != ("/"@).len());
        reveal_strlit("%");
        assert(("+="@).len() != ("%"@).len());
    }
    assert(precedence("-="@) == 1) by {
        reveal_strlit("-=");
        reveal_strlit("=");
        assert(("-="@).len() != ("="@).len());
        reveal_strlit("+=");
        assert(("-="@)[0] != ("+="@)[0]);
        reveal_strlit("*=");
        assert(("-="@)[0] != ("*="@)[0]);
        reveal_strlit("/=");
        assert(("-="@)[0] != ("/="@)[0]);
        reveal_strlit("%=");
        assert(("-="@)[0] != ("%="@)[0]);
        reveal_strlit("&");
        assert(("-="@).len() != ("&"@).len());
        reveal_strlit("|");
        assert(("-="@).len() != ("|"@).len());
        reveal_strlit("^");
        assert(("-="@).len() != ("^"@).len());
        reveal_strlit("<<");
        assert(("-="@)[0] != ("<<"@)[0]);
        reveal_strlit("||");
        assert(("-="@)[0] != ("||"@)[0]);
        reveal_strlit("&&");
        assert(("-="@)[0] != ("&&"@)[0]);
        reveal_strlit("<");
        assert(("-="@).len() != ("<"@).len());
        reveal_strlit(">");
        assert(("-="@).len() != (">"@).len());
        reveal_strlit("<=");
        assert(("-="@)[0] != ("<="@)[0]);
        reveal_strlit(">=");
        assert(("-="@)[0] != (">="@)[0]);
        reveal_strlit("==");
        assert(("-="@)[0] != ("=="@)[0]);
        reveal_strlit("!=");
        assert(("-="@)[0] != ("!="@)[0]);
        reveal_strlit("+");
        assert(("-="@).len() != ("+"@).len());
        reveal_strlit("-");
        assert(("-="@).len() != ("-"@).len());
        reveal_strlit("*");
        assert(("-="@).len() != ("*"@).len());
        reveal_strlit("/");
        assert(("-="@).len() != ("/"@).len());
        reveal_strlit("%");
        assert(("-="@).len() != ("%"@).len());
    }
    assert(precedence("*="@) == 1) by {
        reveal_strlit("*=");
        reveal_strlit("=");
        assert(("*="@).len() != ("="@).len());
        reveal_strlit("+=");
        assert(("*="@)[0] != ("+="@)[0]);
        reveal_strlit("-=");
        assert(("*="@)[0] != ("-="@)[0]);
        reveal_strlit("/=");
        assert(("*="@)[0] != ("/="@)[0]);
        reveal_strlit("%=");
        assert(("*="@)[0] != ("%="@)[0]);
        reveal_strlit("&");
        assert(("*="@).len() != ("&"@).len());
        reveal_strlit("|");
        assert(("*="@).len() != ("|"@).len());
        reveal_strlit("^");
        assert(("*="@).len() != ("^"@).len());
        reveal_strlit("<<");
        assert(("*="@)[0] != ("<<"@)[0]);
        reveal_strlit("||");
        assert(("*="@)[0] != ("||"@)[0]);
        reveal_strlit("&&");
        assert(("*="@)[0] != ("&&"@)[0]);
        reveal_strlit("<");
        assert(("*="@).len() != ("<"@).len());
        reveal_strlit(">");
        assert(("*="@).len() != (">"@).len());
        reveal_strlit("<=");
        assert(("*="@)[0] != ("<="@)[0]);
        reveal_strlit(">=");
        assert(("*="@)[0] != (">="@)[0]);
        reveal_strlit("==");
        assert(("*="@)[0] != ("=="@)[0]);
        reveal_strlit("!=");
        assert(("*="@)[0] != ("!="@)[0]);
        reveal_strlit("+");
        assert(("*="@).len() != ("+"@).len());
        reveal_strlit("-");
        assert(("*="@).len() != ("-"@).len());
        reveal_strlit("*");
        assert(("*="@).len() != ("*"@).len());
        reveal_strlit("/");
        assert(("*="@).len() != ("/"@).len());
        reveal_strlit("%");
        assert(("*="@).len() != ("%"@).len());
    }
    assert(precedence("/="@) == 1) by {
        reveal_strlit("/=");
        reveal_strlit("=");
        assert(("/="@).len() != ("="@).len());
        reveal_strlit("+=");
        assert(("/="@)[0] != ("+="@)[0]);
        reveal_strlit("-=");
        assert(("/="@)[0] != ("-="@)[0]);
        reveal_strlit("*=");
        assert(("/="@)[0] != ("*="@)[0]);
        reveal_strlit("%=");
        assert(("/="@)[0] != ("%="@)[0]);
        reveal_strlit("&");
        assert(("/="@).len() != ("&"@).len());
        reveal_strlit("|");
        assert(("/="@).len() != ("|"@).len());
        reveal_strlit("^");
        assert(("/="@).len() != ("^"@).len());
        reveal_strlit("<<");
        assert(("/="@)[0] != ("<<"@)[0]);
        reveal_strlit("||");
        assert(("/="@)[0] != ("||"@)[0]);
        reveal_strlit("&&");
        assert(("/="@)[0] != ("&&"@)[0]);
        reveal_strlit("<");
        assert(("/="@).len() != ("<"@).len());
        reveal_strlit(">");
        assert(("/="@).len() != (">"@).len());
        reveal_strlit("<=");
        assert(("/="@)[0] != ("<="@)[0]);
        reveal_strlit(">=");
        assert(("/="@)[0] != (">="@)[0]);
        reveal_strlit("==");
        assert(("/="@)[0] != ("=="@)[0]);
        reveal_strlit("!=");
        assert(("/="@)[0] != ("!="@)[0]);
        reveal_strlit("+");
        assert(("/="@).len() != ("+"@).len());
        reveal_strlit("-");
        assert(("/="@).len() != ("-"@).len());
        reveal_strlit("*");
        assert(("/="@).len() != ("*"@).len());
        reveal_strlit("/");
        assert(("/="@).len() != ("/"@).len());
        reveal_strlit("%");
        assert(("/="@).len() != ("%"@).len());
    }
    assert(precedence("%="@) == 1) by {
        reveal_strlit("%=");
        reveal_strlit("=");
        assert(("%="@).len() != ("="@).len());
        reveal_strlit("+=");
        assert(("%="@)[0] != ("+="@)[0]);
        reveal_strlit("-=");
        assert(("%="@)[0] != ("-="@)[0]);
        reveal_strlit("*=");
        assert(("%="@)[0] != ("*="@)[0]);
        reveal_strlit("/=");
        assert(("%="@)[0] != ("/="@)[0]);
        reveal_strlit("&");
        assert(("%="@).len() != ("&"@).len());
        reveal_strlit("|");
        assert(("%="@).len() != ("|"@).len());
        reveal_strlit("^");
        assert(("%="@).len() != ("^"@).len());
        reveal_strlit("<<");
        assert(("%="@)[0] != ("<<"@)[0]);
        reveal_strlit("||");
        assert(("%="@)[0] != ("||"@)[0]);
        reveal_strlit("&&");
        assert(("%="@)[0] != ("&&"@)[0]);
        reveal_strlit("<");
        assert(("%="@).len() != ("<"@).len());
        reveal_strlit(">");
        assert(("%="@).len() != (">"@).len());
        reveal_strlit("<=");
        assert(("%="@)[0] != ("<="@)[0]);
        reveal_strlit(">=");
        assert(("%="@)[0] != (">="@)[0]);
        reveal_strlit("==");
        assert(("%="@)[0] != ("=="@)[0]);
        reveal_strlit("!=");
        assert(("%="@)[0] != ("!="@)[0]);
        reveal_strlit("+");
        assert(("%="@).len() != ("+"@).len());
        reveal_strlit("-");
        assert(("%="@).len() != ("-"@).len());
        reveal_strlit("*");
        assert(("%="@).len() != ("*"@).len());
        reveal_strlit("/");
        assert(("%="@).len() != ("/"@).len());
        reveal_strlit("%");
        assert(("%="@).len() != ("%"@).len());
    }
    assert(precedence("&"@) == 2) by {
        reveal_strlit("&");
        reveal_strlit("=");
        assert(("&"@)[0] != ("="@)[0]);
        reveal_strlit("+=");
        assert(("&"@).len() != ("+="@).len());
        reveal_strlit("-=");
        assert(("&"@).len() != ("-="@).len());
        reveal_strlit("*=");
        assert(("&"@).len() != ("*="@).len());
        reveal_strlit("/=");
        assert(("&"@).len() != ("/="@).len());
        reveal_strlit("%=");
        assert(("&"@).len() != ("%="@).len());
        reveal_strlit("|");
        assert(("&"@)[0] != ("|"@)[0]);
        reveal_strlit("^");
        assert(("&"@)[0] != ("^"@)[0]);
        reveal_strlit("<<");
        assert(("&"@).len() != ("<<"@).len());
        reveal_strlit("||");
        assert(("&"@).len() != ("||"@).len());
        reveal_strlit("&&");
        assert(("&"@).len() != ("&&"@).len());
        reveal_strlit("<");
        assert(("&"@)[0] != ("<"@)[0]);
        reveal_strlit(">");
        assert(("&"@)[0] != (">"@)[0]);
        reveal_strlit("<=");
        assert(("&"@).len() != ("<="@).len());
        reveal_strlit(">=");
        assert(("&"@).len() != (">="@).len());
        reveal_strlit("==");
        assert(("&"@).len() != ("=="@).len());
        reveal_strlit("!=");
        assert(("&"@).len() != ("!="@).len());
        reveal_strlit("+");
        assert(("&"@)[0] != ("+"@)[0]);
        reveal_strlit("-");
        assert(("&"@)[0] != ("-"@)[0]);
        reveal_strlit("*");
        assert(("&"@)[0] != ("*"@)[0]);
        reveal_strlit("/");
        assert(("&"@)[0] != ("/"@)[0]);
        reveal_strlit("%");
        assert(("&"@)[0] != ("%"@)[0]);
    }
    assert(precedence("|"@) == 2) by {
        reveal_strlit("|");
        reveal_strlit("=");
        assert(("|"@)[0] != ("="@)[0]);
        reveal_strlit("+=");
        assert(("|"@).len() != ("+="@).len());
        reveal_strlit("-=");
        assert(("|"@).len() != ("-="@).len());
        reveal_strlit("*=");
        assert(("|"@).len() != ("*="@).len());
        reveal_strlit("/=");
        assert(("|"@).len() != ("/="@).len());
        reveal_strlit("%=");
        assert(("|"@).len() != ("%="@).len());
        reveal_strlit("&");
        assert(("|"@)[0] != ("&"@)[0]);
        reveal_strlit("^");
        assert(("|"@)[0] != ("^"@)[0]);
        reveal_strlit("<<");
        assert(("|"@).len() != ("<<"@).len());
        reveal_strlit("||");
        assert(("|"@).len() != ("||"@).len());
        reveal_strlit("&&");
        assert(("|"@).len() != ("&&"@).len());
        reveal_strlit("<");
        assert(("|"@)[0] != ("<"@)[0]);
        reveal_strlit(">");
        assert(("|"@)[0] != (">"@)[0]);
        reveal_strlit("<=");
        assert(("|"@).len() != ("<="@).len());
        reveal_strlit(">=");
        assert(("|"@).len() != (">="@).len());
        reveal_strlit("==");
        assert(("|"@).len() != ("=="@).len());
        reveal_strlit("!=");
        assert(("|"@).len() != ("!="@).len());
        reveal_strlit("+");
        assert(("|"@)[0] != ("+"@)[0]);
        reveal_strlit("-");
        assert(("|"@)[0] != ("-"@)[0]);
        reveal_strlit("*");
        assert(("|"@)[0] != ("*"@)[0]);
        reveal_strlit("/");
        assert(("|"@)[0] != ("/"@)[0]);
        reveal_strlit("%");
        assert(("|"@)[0] != ("%"@)[0]);
    }
    assert(precedence("^"@) == 2) by {
        reveal_strlit("^");
        reveal_strlit("=");
        assert(("^"@)[0] != ("="@)[0]);
        reveal_strlit("+=");
        assert(("^"@).len() != ("+="@).len());
        reveal_strlit("-=");
        assert(("^"@).len() != ("-="@).len());
        reveal_strlit("*=");
        assert(("^"@).len() != ("*="@).len());
        reveal_strlit("/=");
        assert(("^"@).len() != ("/="@).len());
        reveal_strlit("%=");
        assert(("^"@).len() != ("%="@).len());
        reveal_strlit("&");
        assert(("^"@)[0] != ("&"@)[0]);
        reveal_strlit("|");
        assert(("^"@)[0] != ("|"@)[0]);
        reveal_strlit("<<");
        assert(("^"@).len() != ("<<"@).len());
        reveal_strlit("||");
        assert(("^"@).len() != ("||"@).len());
        reveal_strlit("&&");
        assert(("^"@).len() != ("&&"@).len());
        reveal_strlit("<");
        assert(("^"@)[0] != ("<"@)[0]);
        reveal_strlit(">");
        assert(("^"@)[0] != (">"@)[0]);
        reveal_strlit("<=");
        assert(("^"@).len() != ("<="@).len());
        reveal_strlit(">=");
        assert(("^"@).len() != (">="@).len());
        reveal_strlit("==");
        assert(("^"@).len() != ("=="@).len());
        reveal_strlit("!=");
        assert(("^"@).len() != ("!="@).len());
        reveal_strlit("+");
        assert(("^"@)[0] != ("+"@)[0]);
        reveal_strlit("-");
        assert(("^"@)[0] != ("-"@)[0]);
        reveal_strlit("*");
        assert(("^"@)[0] != ("*"@)[0]);
        reveal_strlit("/");
        assert(("^"@)[0] != ("/"@)[0]);
        reveal_strlit("%");
        assert(("^"@)[0] != ("%"@)[0]);
    }
    assert(precedence("<<"@) == 3) by {
        reveal_strlit("<<");
        reveal_strlit("=");
        assert(("<<"@).len() != ("="@).len());
        reveal_strlit("+=");
        assert(("<<"@)[0] != ("+="@)[0]);
        reveal_strlit("-=");
        assert(("<<"@)[0] != ("-="@)[0]);
        reveal_strlit("*=");
        assert(("<<"@)[0] != ("*="@)[0]);
        reveal_strlit("/=");
        assert(("<<"@)[0] != ("/="@)[0]);
        reveal_strlit("%=");
        assert(("<<"@)[0] != ("%="@)[0]);
        reveal_strlit("&");
        assert(("<<"@).len() != ("&"@).len());
        reveal_strlit("|");
        assert(("<<"@).len() != ("|"@).len());
        reveal_strlit("^");
        assert(("<<"@).len() != ("^"@).len());
        reveal_strlit("||");
        assert(("<<"@)[0] != ("||"@)[0]);
        reveal_strlit("&&");
        assert(("<<"@)[0] != ("&&"@)[0]);
        reveal_strlit("<");
        assert(("<<"@).len() != ("<"@).len());
        reveal_strlit(">");
        assert(("<<"@).len() != (">"@).len());
        reveal_strlit("<=");
        assert(("<<"@)[1] != ("<="@)[1]);
        reveal_strlit(">=");
        assert(("<<"@)[0] != (">="@)[0]);
        reveal_strlit("==");
        assert(("<<"@)[0] != ("=="@)[0]);
        reveal_strlit("!=");
        assert(("<<"@)[0] != ("!="@)[0]);
        reveal_strlit("+");
        assert(("<<"@).len() != ("+"@).len());
        reveal_strlit("-");
        assert(("<<"@).len() != ("-"@).len());
        reveal_strlit("*");
        assert(("<<"@).len() != ("*"@).len());
        reveal_strlit("/");
        assert(("<<"@).len() != ("/"@).len());
        reveal_strlit("%");
        assert(("<<"@).len() != ("%"@).len());
    }
    assert(precedence("||"@) == 5) by {
        reveal_strlit("||");
        reveal_strlit("=");
        assert(("||"@).len() != ("="@).len());
        reveal_strlit("+=");
        assert(("||"@)[0] != ("+="@)[0]);
        reveal_strlit("-=");
        assert(("||"@)[0] != ("-="@)[0]);
        reveal_strlit("*=");
        assert(("||"@)[0] != ("*="@)[0]);
        reveal_strlit("/=");
        assert(("||"@)[0] != ("/="@)[0]);
        reveal_strlit("%=");
        assert(("||"@)[0] != ("%="@)[0]);
        reveal_strlit("&");
        assert(("||"@).len() != ("&"@).len());
        reveal_strlit("|");
        assert(("||"@).len() != ("|"@).len());
        reveal_strlit("^");
        assert(("||"@).len() != ("^"@).len());
        reveal_strlit("<<");
        assert(("||"@)[0] != ("<<"@)[0]);
        reveal_strlit("&&");
        assert(("||"@)[0] != ("&&"@)[0]);
        reveal_strlit("<");
        assert(("||"@).len() != ("<"@).len());
        reveal_strlit(">");
        assert(("||"@).len() != (">"@).len());
        reveal_strlit("<=");
        assert(("||"@)[0] != ("<="@)[0]);
        reveal_strlit(">=");
        assert(("||"@)[0] != (">="@)[0]);
        reveal_strlit("==");
        assert(("||"@)[0] != ("=="@)[0]);
        reveal_strlit("!=");
        assert(("||"@)[0] != ("!="@)[0]);
        reveal_strlit("+");
        assert(("||"@).len() != ("+"@).len());
        reveal_strlit("-");
        assert(("||"@).len() != ("-"@).len());
        reveal_strlit("*");
        assert(("||"@).len() != ("*"@).len());
        reveal_strlit("/");
        assert(("||"@).len() != ("/"@).len());
        reveal_strlit("%");
        assert(("||"@).len() != ("%"@).len());
    }
    assert(precedence("&&"@) == 7) by {
        reveal_strlit("&&");
        reveal_strlit("=");
        assert(("&&"@).len() != ("="@).len());
        reveal_strlit("+=");
        assert(("&&"@)[0] != ("+="@)[0]);
        reveal_strlit("-=");
        assert(("&&"@)[0] != ("-="@)[0]);
        reveal_strlit("*=");
        assert(("&&"@)[0] != ("*="@)[0]);
        reveal_strlit("/=");
        assert(("&&"@)[0] != ("/="@)[0]);
        reveal_strlit("%=");
        assert(("&&"@)[0] != ("%="@)[0]);
        reveal_strlit("&");
        assert(("&&"@).len() != ("&"@).len());
        reveal_strlit("|");
        assert(("&&"@).len() != ("|"@).len());
        reveal_strlit("^");
        assert(("&&"@).len() != ("^"@).len());
        reveal_strlit("<<");
        assert(("&&"@)[0] != ("<<"@)[0]);
        reveal_strlit("||");
        assert(("&&"@)[0] != ("||"@)[0]);
        reveal_strlit("<");
        assert(("&&"@).len() != ("<"@).len());
        reveal_strlit(">");
        assert(("&&"@).len() != (">"@).len());
        reveal_strlit("<=");
        assert(("&&"@)[0] != ("<="@)[0]);
        reveal_strlit(">=");
        assert(("&&"@)[0] != (">="@)[0]);
        reveal_strlit("==");
        assert(("&&"@)[0] != ("=="@)[0]);
        reveal_strlit("!=");
        assert(("&&"@)[0] != ("!="@)[0]);
        reveal_strlit("+");
        assert(("&&"@).len() != ("+"@).len());
        reveal_strlit("-");
        assert(("&&"@).len() != ("-"@).len());
        reveal_strlit("*");
        assert(("&&"@).len() != ("*"@).len());
        reveal_strlit("/");
        assert(("&&"@).len() != ("/"@).len());
        reveal_strlit("%");
        assert(("&&"@).len() != ("%"@).len());
    }
    assert(precedence("<"@) == 10) by {
        reveal_strlit("<");
        reveal_strlit("=");
        assert(("<"@)[0] != ("="@)[0]);
        reveal_strlit("+=");
        assert(("<"@).len() != ("+="@).len());
        reveal_strlit("-=");
        assert(("<"@).len() != ("-="@).len());
        reveal_strlit("*=");
        assert(("<"@).len() != ("*="@).len());
        reveal_strlit("/=");
        assert(("<"@).len() != ("/="@).len());
        reveal_strlit("%=");
        assert(("<"@).len() != ("%="@).len());
        reveal_strlit("&");
        assert(("<"@)[0] != ("&"@)[0]);
        reveal_strlit("|");
        assert(("<"@)[0] != ("|"@)[0]);
        reveal_strlit("^");
        assert(("<"@)[0] != ("^"@)[0]);
        reveal_strlit("<<");
        assert(("<"@).len() != ("<<"@).len());
        reveal_strlit("||");
        assert(("<"@).len() != ("||"@).len());
        reveal_strlit("&&");
        assert(("<"@).len() != ("&&"@).len());
        reveal_strlit(">");
        assert(("<"@)[0] != (">"@)[0]);
        reveal_strlit("<=");
        assert(("<"@).len() != ("<="@).len());
        reveal_strlit(">=");
        assert(("<"@).len() != (">="@).len());
        reveal_strlit("==");
        assert(("<"@).len() != ("=="@).len());
        reveal_strlit("!=");
        assert(("<"@).len() != ("!="@).len());
        reveal_strlit("+");
        assert(("<"@)[0] != ("+"@)[0]);
        reveal_strlit("-");
        assert(("<"@)[0] != ("-"@)[0]);
        reveal_strlit("*");
        assert(("<"@)[0] != ("*"@)[0]);
        reveal_strlit("/");
        assert(("<"@)[0] != ("/"@)[0]);
        reveal_strlit("%");
        assert(("<"@)[0] != ("%"@)[0]);
    }
    assert(precedence(">"@) == 10) by {
        reveal_strlit(">");
        reveal_strlit("=");
        assert((">"@)[0] != ("="@)[0]);
        reveal_strlit("+=");
        assert((">"@).len() != ("+="@).len());
        reveal_strlit("-=");
        assert((">"@).len() != ("-="@).len());
        reveal_strlit("*=");
        assert((">"@).len() != ("*="@).len());
        reveal_strlit("/=");
        assert((">"@).len() != ("/="@).len());
        reveal_strlit("%=");
        assert((">"@).len() != ("%="@).len());
        reveal_strlit("&");
        assert((">"@)[0] != ("&"@)[0]);
        reveal_strlit("|");
        assert((">"@)[0] != ("|"@)[0]);
        reveal_strlit("^");
        assert((">"@)[0] != ("^"@)[0]);
        reveal_strlit("<<");
        assert((">"@).len() != ("<<"@).len());
        reveal_strlit("||");
        assert((">"@).len() != ("||"@).len());
        reveal_strlit("&&");
        assert((">"@).len() != ("&&"@).len());
        reveal_strlit("<");
        assert((">"@)[0] != ("<"@)[0]);
        reveal_strlit("<=");
        assert((">"@).len() != ("<="@).len());
        reveal_strlit(">=");
        assert((">"@).len() != (">="@).len());
        reveal_strlit("==");
        assert((">"@).len() != ("=="@).len());
        reveal_strlit("!=");
        assert((">"@).len() != ("!="@).len());
        reveal_strlit("+");
        assert((">"@)[0] != ("+"@)[0]);
        reveal_strlit("-");
        assert((">"@)[0] != ("-"@)[0]);
        reveal_strlit("*");
        assert((">"@)[0] != ("*"@)[0]);
        reveal_strlit("/");
        assert((">"@)[0] != ("/"@)[0]);
        reveal_strlit("%");
        assert((">"@)[0] != ("%"@)[0]);
    }
    assert(precedence("<="@) == 10) by {
        reveal_strlit("<=");
        reveal_strlit("=");
        assert(("<="@).len() != ("="@).len());
        reveal_strlit("+=");
        assert(("<="@)[0] != ("+="@)[0]);
        reveal_strlit("-=");
        assert(("<="@)[0] != ("-="@)[0]);
        reveal_strlit("*=");
        assert(("<="@)[0] != ("*="@)[0]);
        reveal_strlit("/=");
        assert(("<="@)[0] != ("/="@)[0]);
        reveal_strlit("%=");
        assert(("<="@)[0] != ("%="@)[0]);
        reveal_strlit("&");
        assert(("<="@).len() != ("&"@).len());
        reveal_strlit("|");
        assert(("<="@).len() != ("|"@).len());
        reveal_strlit("^");
        assert(("<="@).len() != ("^"@).len());
        reveal_strlit("<<");
        assert(("<="@)[1] != ("<<"@)[1]);
        reveal_strlit("||");
        assert(("<="@)[0] != ("||"@)[0]);
        reveal_strlit("&&");
        assert(("<="@)[0] != ("&&"@)[0]);
        reveal_strlit("<");
        assert(("<="@).len() != ("<"@).len());
        reveal_strlit(">");
        assert(("<="@).len() != (">"@).len());
        reveal_strlit(">=");
        assert(("<="@)[0] != (">="@)[0]);
        reveal_strlit("==");
        assert(("<="@)[0] != ("=="@)[0]);
        reveal_strlit("!=");
        assert(("<="@)[0] != ("!="@)[0]);
        reveal_strlit("+");
        assert(("<="@).len() != ("+"@).len());
        reveal_strlit("-");
        assert(("<="@).len() != ("-"@).len());
        reveal_strlit("*");
        assert(("<="@).len() != ("*"@).len());
        reveal_strlit("/");
        assert(("<="@).len() != ("/"@).len());
        reveal_strlit("%");
        assert(("<="@).len() != ("%"@).len());
    }
    assert(precedence(">="@) == 10) by {
        reveal_strlit(">=");
        reveal_strlit("=");
        assert((">="@).len() != ("="@).len());
        reveal_strlit("+=");
        assert((">="@)[0] != ("+="@)[0]);
        reveal_strlit("-=");
        assert((">="@)[0] != ("-="@)[0]);
        reveal_strlit("*=");
        assert((">="@)[0] != ("*="@)[0]);
        reveal_strlit("/=");
        assert((">="@)[0] != ("/="@)[0]);
        reveal_strlit("%=");
        assert((">="@)[0] != ("%="@)[0]);
        reveal_strlit("&");
        assert((">="@).len() != ("&"@).len());
        reveal_strlit("|");
        assert((">="@).len() != ("|"@).len());
        reveal_strlit("^");
        assert((">="@).len() != ("^"@).len());
        reveal_strlit("<<");
        assert((">="@)[0] != ("<<"@)[0]);
        reveal_strlit("||");
        assert((">="@)[0] != ("||"@)[0]);
        reveal_strlit("&&");
        assert((">="@)[0] != ("&&"@)[0]);
        reveal_strlit("<");
        assert((">="@).len() != ("<"@).len());
        reveal_strlit(">");
        assert((">="@).len() != (">"@).len());
        reveal_strlit("<=");
        assert((">="@)[0] != ("<="@)[0]);
        reveal_strlit("==");
        assert((">="@)[0] != ("=="@)[0]);
        reveal_strlit("!=");
        assert((">="@)[0] != ("!="@)[0]);
        reveal_strlit("+");
        assert((">="@).len() != ("+"@).len());
        reveal_strlit("-");
        assert((">="@).len() != ("-"@).len());
        reveal_strlit("*");
        assert((">="@).len() != ("*"@).len());
        reveal_strlit("/");
        assert((">="@).len() != ("/"@).len());
        reveal_strlit("%");
        assert((">="@).len() != ("%"@).len());
    }
    assert(precedence("=="@) == 10) by {
        reveal_strlit("==");
        reveal_strlit("=");
        assert(("=="@).len() != ("="@).len());
        reveal_strlit("+=");
        assert(("=="@)[0] != ("+="@)[0]);
        reveal_strlit("-=");
        assert(("=="@)[0] != ("-="@)[0]);
        reveal_strlit("*=");
        assert(("=="@)[0] != ("*="@)[0]);
        reveal_strlit("/=");
        assert(("=="@)[0] != ("/="@)[0]);
        reveal_strlit("%=");
        assert(("=="@)[0] != ("%="@)[0]);
        reveal_strlit("&");
        assert(("=="@).len() != ("&"@).len());
        reveal_strlit("|");
        assert(("=="@).len() != ("|"@).len());
        reveal_strlit("^");
        assert(("=="@).len() != ("^"@).len());
        reveal_strlit("<<");
        assert(("=="@)[0] != ("<<"@)[0]);
        reveal_strlit("||");
        assert(("=="@)[0] != ("||"@)[0]);
        reveal_strlit("&&");
        assert(("=="@)[0] != ("&&"@)[0]);
        reveal_strlit("<");
        assert(("=="@).len() != ("<"@).len());
        reveal_strlit(">");
        assert(("=="@).len() != (">"@).len());
        reveal_strlit("<=");
        assert(("=="@)[0] != ("<="@)[0]);
        reveal_strlit(">=");
        assert(("=="@)[0] != (">="@)[0]);
        reveal_strlit("!=");
        assert(("=="@)[0] != ("!="@)[0]);
        reveal_strlit("+");
        assert(("=="@).len() != ("+"@).len());
        reveal_strlit("-");
        assert(("=="@).len() != ("-"@).len());
        reveal_strlit("*");
        assert(("=="@).len() != ("*"@).len());
        reveal_strlit("/");
        assert(("=="@).len() != ("/"@).len());
        reveal_strlit("%");
        assert(("=="@).len() != ("%"@).len());
    }
    assert(precedence("!="@) == 10) by {
        reveal_strlit("!=");
        reveal_strlit("=");
        assert(("!="@).len() != ("="@).len());
        reveal_strlit("+=");
        assert(("!="@)[0] != ("+="@)[0]);
        reveal_strlit("-=");
        assert(("!="@)[0] != ("-="@)[0]);
        reveal_strlit("*=");
        assert(("!="@)[0] != ("*="@)[0]);
        reveal_strlit("/=");
        assert(("!="@)[0] != ("/="@)[0]);
        reveal_strlit("%=");
        assert(("!="@)[0] != ("%="@)[0]);
        reveal_strlit("&");
        assert(("!="@).len() != ("&"@).len());
        reveal_strlit("|");
        assert(("!="@).len() != ("|"@).len());
        reveal_strlit("^");
        assert(("!="@).len() != ("^"@).len());
        reveal_strlit("<<");
        assert(("!="@)[0] != ("<<"@)[0]);
        reveal_strlit("||");
        assert(("!="@)[0] != ("||"@)[0]);
        reveal_strlit("&&");
        assert(("!="@)[0] != ("&&"@)[0]);
        reveal_strlit("<");
        assert(("!="@).len() != ("<"@).len());
        reveal_strlit(">");
        assert(("!="@).len() != (">"@).len());
        reveal_strlit("<=");
        assert(("!="@)[0] != ("<="@)[0]);
        reveal_strlit(">=");
        assert(("!="@)[0] != (">="@)[0]);
        reveal_strlit("==");
        assert(("!="@)[0] != ("=="@)[0]);
        reveal_strlit("+");
        assert(("!="@).len() != ("+"@).len());
        reveal_strlit("-");
        assert(("!="@).len() != ("-"@).len());
        reveal_strlit("*");
        assert(("!="@).len() != ("*"@).len());
        reveal_strlit("/");
        assert(("!="@).len() != ("/"@).len());
        reveal_strlit("%");
        assert(("!="@).len() != ("%"@).len());
    }
    assert(precedence("+"@) == 15) by {
        reveal_strlit("+");
        reveal_strlit("=");
        assert(("+"@)[0] != ("="@)[0]);
        reveal_strlit("+=");
        assert(("+"@).len() != ("+="@).len());
        reveal_strlit("-=");
        assert(("+"@).len() != ("-="@).len());
        reveal_strlit("*=");
        assert(("+"@).len() != ("*="@).len());
        reveal_strlit("/=");
        assert(("+"@).len() != ("/="@).len());
        reveal_strlit("%=");
        assert(("+"@).len() != ("%="@).len());
        reveal_strlit("&");
        assert(("+"@)[0] != ("&"@)[0]);
        reveal_strlit("|");
        assert(("+"@)[0] != ("|"@)[0]);
        reveal_strlit("^");
        assert(("+"@)[0] != ("^"@)[0]);
        reveal_strlit("<<");
        assert(("+"@).len() != ("<<"@).len());
        reveal_strlit("||");
        assert(("+"@).len() != ("||"@).len());
        reveal_strlit("&&");
        assert(("+"@).len() != ("&&"@).len());
        reveal_strlit("<");
        assert(("+"@)[0] != ("<"@)[0]);
        reveal_strlit(">");
        assert(("+"@)[0] != (">"@)[0]);
        reveal_strlit("<=");
        assert(("+"@).len() != ("<="@).len());
        reveal_strlit(">=");
        assert(("+"@).len() != (">="@).len());
        reveal_strlit("==");
        assert(("+"@).len() != ("=="@).len());
        reveal_strlit("!=");
        assert(("+"@).len() != ("!="@).len());
        reveal_strlit("-");
        assert(("+"@)[0] != ("-"@)[0]);
        reveal_strlit("*");
        assert(("+"@)[0] != ("*"@)[0]);
        reveal_strlit("/");
        assert(("+"@)[0] != ("/"@)[0]);
        reveal_strlit("%");
        assert(("+"@)[0] != ("%"@)[0]);
    }
    assert(precedence("-"@) == 15) by {
        reveal_strlit("-");
        reveal_strlit("=");
        assert(("-"@)[0] != ("="@)[0]);
        reveal_strlit("+=");
        assert(("-"@).len() != ("+="@).len());
        reveal_strlit("-=");
        assert(("-"@).len() != ("-="@).len());
        reveal_strlit("*=");
        assert(("-"@).len() != ("*="@).len());
        reveal_strlit("/=");
        assert(("-"@).len() != ("/="@).len());
        reveal_strlit("%=");
        assert(("-"@).len() != ("%="@).len());
        reveal_strlit("&");
        assert(("-"@)[0] != ("&"@)[0]);
        reveal_strlit("|");
        assert(("-"@)[0] != ("|"@)[0]);
        reveal_strlit("^");
        assert(("-"@)[0] != ("^"@)[0]);
        reveal_strlit("<<");
        assert(("-"@).len() != ("<<"@).len());
        reveal_strlit("||");
        assert(("-"@).len() != ("||"@).len());
        reveal_strlit("&&");
        assert(("-"@).len() != ("&&"@).len());
        reveal_strlit("<");
        assert(("-"@)[0] != ("<"@)[0]);
        reveal_strlit(">");
        assert(("-"@)[0] != (">"@)[0]);
        reveal_strlit("<=");
        assert(("-"@).len() != ("<="@).len());
        reveal_strlit(">=");
        assert(("-"@).len() != (">="@).len());
        reveal_strlit("==");
        assert(("-"@).len() != ("=="@).len());
        reveal_strlit("!=");
        assert(("-"@).len() != ("!="@).len());
        reveal_strlit("+");
        assert(("-"@)[0] != ("+"@)[0]);
        reveal_strlit("*");
        assert(("-"@)[0] != ("*"@)[0]);
        reveal_strlit("/");
        assert(("-"@)[0] != ("/"@)[0]);
        reveal_strlit("%");
        assert(("-"@)[0] != ("%"@)[0]);
    }
    assert(precedence("*"@) == 20) by {
        reveal_strlit("*");
        reveal_strlit("=");
        assert(("*"@)[0] != ("="@)[0]);
        reveal_strlit("+=");
        assert(("*"@).len() != ("+="@).len());
        reveal_strlit("-=");
        assert(("*"@).len() != ("-="@).len());
        reveal_strlit("*=");
        assert(("*"@).len() != ("*="@).len());
        reveal_strlit("/=");
        assert(("*"@).len() != ("/="@).len());
        reveal_strlit("%=");
        assert(("*"@).len() != ("%="@).len());
        reveal_strlit("&");
        assert(("*"@)[0] != ("&"@)[0]);
        reveal_strlit("|");
        assert(("*"@)[0] != ("|"@)[0]);
        reveal_strlit("^");
        assert(("*"@)[0] != ("^"@)[0]);
        reveal_strlit("<<");
        assert(("*"@).len() != ("<<"@).len());
        reveal_strlit("||");
        assert(("*"@).len() != ("||"@).len());
        reveal_strlit("&&");
        assert(("*"@).len() != ("&&"@).len());
        reveal_strlit("<");
        assert(("*"@)[0] != ("<"@)[0]);
        reveal_strlit(">");
        assert(("*"@)[0] != (">"@)[0]);
        reveal_strlit("<=");
        assert(("*"@).len() != ("<="@).len());
        reveal_strlit(">=");
        assert(("*"@).len() != (">="@).len());
        reveal_strlit("==");
        assert(("*"@).len() != ("=="@).len());
        reveal_strlit("!=");
        assert(("*"@).len() != ("!="@).len());
        reveal_strlit("+");
        assert(("*"@)[0] != ("+"@)[0]);
        reveal_strlit("-");
        assert(("*"@)[0] != ("-"@)[0]);
        reveal_strlit("/");
        assert(("*"@)[0] != ("/"@)[0]);
        reveal_strlit("%");
        assert(("*"@)[0] != ("%"@)[0]);
    }
    assert(precedence("/"@) == 20) by {
        reveal_strlit("/");
        reveal_strlit("=");
        assert(("/"@)[0] != ("="@)[0]);
        reveal_strlit("+=");
        assert(("/"@).len() != ("+="@).len());
        reveal_strlit("-=");
        assert(("/"@).len() != ("-="@).len());
        reveal_strlit("*=");
        assert(("/"@).len() != ("*="@).len());
        reveal_strlit("/=");
        assert(("/"@).len() != ("/="@).len());
        reveal_strlit("%=");
        assert(("/"@).len() != ("%="@).len());
        reveal_strlit("&");
        assert(("/"@)[0] != ("&"@)[0]);
        reveal_strlit("|");
        assert(("/"@)[0] != ("|"@)[0]);
        reveal_strlit("^");
        assert(("/"@)[0] != ("^"@)[0]);
        reveal_strlit("<<");
        assert(("/"@).len() != ("<<"@).len());
        reveal_strlit("||");
        assert(("/"@).len() != ("||"@).len());
        reveal_strlit("&&");
        assert(("/"@).len() != ("&&"@).len());
        reveal_strlit("<");
        assert(("/"@)[0] != ("<"@)[0]);
        reveal_strlit(">");
        assert(("/"@)[0] != (">"@)[0]);
        reveal_strlit("<=");
        assert(("/"@).len() != ("<="@).len());
        reveal_strlit(">=");
        assert(("/"@).len() != (">="@).len());
        reveal_strlit("==");
        assert(("/"@).len() != ("=="@).len());
        reveal_strlit("!=");
        assert(("/"@).len() != ("!="@).len());
        reveal_strlit("+");
        assert(("/"@)[0] != ("+"@)[0]);
        reveal_strlit("-");
        assert(("/"@)[0] != ("-"@)[0]);
        reveal_strlit("*");
        assert(("/"@)[0] != ("*"@)[0]);
        reveal_strlit("%");
        assert(("/"@)[0] != ("%"@)[0]);
    }
    assert(precedence("%"@) == 20) by {
        reveal_strlit("%");
        reveal_strlit("=");
        assert(("%"@)[0] != ("="@)[0]);
        reveal_strlit("+=");
        assert(("%"@).len() != ("+="@).len());
        reveal_strlit("-=");
        assert(("%"@).len() != ("-="@).len());
        reveal_strlit("*=");
        assert(("%"@).len() != ("*="@).len());
        reveal_strlit("/=");
        assert(("%"@).len() != ("/="@).len());
        reveal_strlit("%=");
        assert(("%"@).len() != ("%="@).len());
        reveal_strlit("&");
        assert(("%"@)[0] != ("&"@)[0]);
        reveal_strlit("|");
        assert(("%"@)[0] != ("|"@)[0]);
        reveal_strlit("^");
        assert(("%"@)[0] != ("^"@)[0]);
        reveal_strlit("<<");
        assert(("%"@).len() != ("<<"@).len());
        reveal_strlit("||");
        assert(("%"@).len() != ("||"@).len());
        reveal_strlit("&&");
        assert(("%"@).len() != ("&&"@).len());
        reveal_strlit("<");
        assert(("%"@)[0] != ("<"@)[0]);
        reveal_strlit(">");
        assert(("%"@)[0] != (">"@)[0]);
        reveal_strlit("<=");
        assert(("%"@).len() != ("<="@).len());
        reveal_strlit(">=");
        assert(("%"@).len() != (">="@).len());
        reveal_strlit("==");
        assert(("%"@).len() != ("=="@).len());
        reveal_strlit("!=");
        assert(("%"@).len() != ("!="@).len());
        reveal_strlit("+");
        assert(("%"@)[0] != ("+"@)[0]);
        reveal_strlit("-");
        assert(("%"@)[0] != ("-"@)[0]);
        reveal_strlit("*");
        assert(("%"@)[0] != ("*"@)[0]);
        reveal_strlit("/");
        assert(("%"@)[0] != ("/"@)[0]);
    }
    assert(precedence("."@) == -1) by {
        reveal_strlit(".");
        reveal_strlit("=");
        assert(("."@)[0] != ("="@)[0]);
        reveal_strlit("+=");
        assert(("."@).len() != ("+="@).len());
        reveal_strlit("-=");
        assert(("."@).len() != ("-="@).len());
        reveal_strlit("*=");
        assert(("."@).len() != ("*="@).len());
        reveal_strlit("/=");
        assert(("."@).len() != ("/="@).len());
        reveal_strlit("%=");
        assert(("."@).len() != ("%="@).len());
        reveal_strlit("&");
        assert(("."@)[0] != ("&"@)[0]);
        reveal_strlit("|");
        assert(("."@)[0] != ("|"@)[0]);
        reveal_strlit("^");
        assert(("."@)[0] != ("^"@)[0]);
        reveal_strlit("<<");
        assert(("."@).len() != ("<<"@).len());
        reveal_strlit("||");
        assert(("."@).len() != ("||"@).len());
        reveal_strlit("&&");
        assert(("."@).len() != ("&&"@).len());
        reveal_strlit("<");
        assert(("."@)[0] != ("<"@)[0]);
        reveal_strlit(">");
        assert(("."@)[0] != (">"@)[0]);
        reveal_strlit("<=");
        assert(("."@).len() != ("<="@).len());
        reveal_strlit(">=");
        assert(("."@).len() != (">="@).len());
        reveal_strlit("==");
        assert(("."@).len() != ("=="@).len());
        reveal_strlit("!=");
        assert(("."@).len() != ("!="@).len());
        reveal_strlit("+");
        assert(("."@)[0] != ("+"@)[0]);
        reveal_strlit("-");
        assert(("."@)[0] != ("-"@)[0]);
        reveal_strlit("*");
        assert(("."@)[0] != ("*"@)[0]);
        reveal_strlit("/");
        assert(("."@)[0] != ("/"@)[0]);
        reveal_strlit("%");
        assert(("."@)[0] != ("%"@)[0]);
    }
    assert(precedence("=>"@) == -1) by {
        reveal_strlit("=>");
        reveal_strlit("=");
        assert(("=>"@).len() != ("="@).len());
        reveal_strlit("+=");
        assert(("=>"@)[0] != ("+="@)[0]);
        reveal_strlit("-=");
        assert(("=>"@)[0] != ("-="@)[0]);
        reveal_strlit("*=");
        assert(("=>"@)[0] != ("*="@)[0]);
        reveal_strlit("/=");
        assert(("=>"@)[0] != ("/="@)[0]);
        reveal_strlit("%=");
        assert(("=>"@)[0] != ("%="@)[0]);
        reveal_strlit("&");
        assert(("=>"@).len() != ("&"@).len());
        reveal_strlit("|");
        assert(("=>"@).len() != ("|"@).len());
        reveal_strlit("^");
        assert(("=>"@).len() != ("^"@).len());
        reveal_strlit("<<");
        assert(("=>"@)[0] != ("<<"@)[0]);
        reveal_strlit("||");
        assert(("=>"@)[0] != ("||"@)[0]);
        reveal_strlit("&&");
        assert(("=>"@)[0] != ("&&"@)[0]);
        reveal_strlit("<");
        assert(("=>"@).len() != ("<"@).len());
        reveal_strlit(">");
        assert(("=>"@).len() != (">"@).len());
        reveal_strlit("<=");
        assert(("=>"@)[0] != ("<="@)[0]);
        reveal_strlit(">=");
        assert(("=>"@)[0] != (">="@)[0]);
        reveal_strlit("==");
        assert(("=>"@)[1] != ("=="@)[1]);
        reveal_strlit("!=");
        assert(("=>"@)[0] != ("!="@)[0]);
        reveal_strlit("+");
        assert(("=>"@).len() != ("+"@).len());
        reveal_strlit("-");
        assert(("=>"@).len() != ("-"@).len());
        reveal_strlit("*");
        assert(("=>"@).len() != ("*"@).len());
        reveal_strlit("/");
        assert(("=>"@).len() != ("/"@).len());
        reveal_strlit("%");
        assert(("=>"@).len() != ("%"@).len());
    }
    assert(precedence("!"@) == -1) by {
        reveal_strlit("!");
        reveal_strlit("=");
        assert(("!"@)[0] != ("="@)[0]);
        reveal_strlit("+=");
        assert(("!"@).len() != ("+="@).len());
        reveal_strlit("-=");
        assert(("!"@).len() != ("-="@).len());
        reveal_strlit("*=");
        assert(("!"@).len() != ("*="@).len());
        reveal_strlit("/=");
        assert(("!"@).len() != ("/="@).len());
        reveal_strlit("%=");
        assert(("!"@).len() != ("%="@).len());
        reveal_strlit("&");
        assert(("!"@)[0] != ("&"@)[0]);
        reveal_strlit("|");
        assert(("!"@)[0] != ("|"@)[0]);
        reveal_strlit("^");
        assert(("!"@)[0] != ("^"@)[0]);
        reveal_strlit("<<");
        assert(("!"@).len() != ("<<"@).len());
        reveal_strlit("||");
        assert(("!"@).len() != ("||"@).len());
        reveal_strlit("&&");
        assert(("!"@).len() != ("&&"@).len());
        reveal_strlit("<");
        assert(("!"@)[0] != ("<"@)[0]);
        reveal_strlit(">");
        assert(("!"@)[0] != (">"@)[0]);
        reveal_strlit("<=");
        assert(("!"@).len() != ("<="@).len());
        reveal_strlit(">=");
        assert(("!"@).len() != (">="@).len());
        reveal_strlit("==");
        assert(("!"@).len() != ("=="@).len());
        reveal_strlit("!=");
        assert(("!"@).len() != ("!="@).len());
        reveal_strlit("+");
        assert(("!"@)[0] != ("+"@)[0]);
        reveal_strlit("-");
        assert(("!"@)[0] != ("-"@)[0]);
        reveal_strlit("*");
        assert(("!"@)[0] != ("*"@)[0]);
        reveal_strlit("/");
        assert(("!"@)[0] != ("/"@)[0]);
        reveal_strlit("%");
        assert(("!"@)[0] != ("%"@)[0]);
    }
}

/// A match arm pattern obeys the language's rule: tuples, iterators and
/// enum values in match arms are natural.
pub open spec fn pattern_ok(p: ASTMatchArmExpressions) -> bool {
    match p {
        ASTMatchArmExpressions::Tuple(t) => natural_list(t.expressions@),
        ASTMatchArmExpressions::Iterator(i) => natural_iter(i),
        ASTMatchArmExpressions::Enum(a) => natural_mod_access(a),
        _ => true,
    }
}

/// The statement is a `main` entry, possibly under meta and export
/// statements.
pub open spec fn declares_main(s: ASTStatement) -> bool
    decreases s,
{
    match s {
        ASTStatement::Main(_) => true,
        ASTStatement::Meta(m) => declares_main(*m.target),
        ASTStatement::Export(e) => declares_main(*e.value),
        _ => false,
    }
}

/// The lexer `a`, reading numbers as names when `as_str`.
pub open spec fn with_num_mode(a: Tokenizer, as_str: bool) -> Tokenizer {
    Tokenizer { is_last_num_as_str: as_str, ..a }
}

/// The next token `a` hands out is `t`.
pub open spec fn next_token(a: Tokenizer, t: Token) -> bool {
    ||| a.current == Some(t)
    ||| a.current is None && exists|b: Tokenizer| #[trigger] lex_read(a, b, Some(t))
}

/// Two lexer states that read alike: the same cursor, look-ahead, start
/// of the last token and number mode.
pub open spec fn same_reading(a: Tokenizer, b: Tokenizer) -> bool {
    &&& a.input == b.input
    &&& a.current == b.current
    &&& a.last_loc == b.last_loc
    &&& a.is_last_num_as_str == b.is_last_num_as_str
}

/// No token comes next: the lexer yields none.
pub open spec fn no_next_token(a: Tokenizer) -> bool {
    a.current is None && exists|b: Tokenizer| #[trigger] lex_read(a, b, None)
}

/// The lexer is deterministic: from states that read alike, one step
/// yields the same token (or none) and leaves the cursor and the start of
/// the last token in the same place.
pub proof fn lemma_lex_step_unique(a1: Tokenizer, a2: Tokenizer, b1: Tokenizer, b2: Tokenizer, r1: Option<Token>, r2: Option<Token>)
    requires
        same_reading(a1, a2),
        lex_read(a1, b1, r1),
        lex_read(a2, b2, r2),
    ensures
        r1 is Some <==> r2 is Some,
        r1 is Some ==> r1->0.val@ == r2->0.val@ && r1->0.range == r2->0.range,
        b1.input == b2.input,
        b1.last_loc == b2.last_loc,
{
}

/// The next token is determined by what the lexer reads.
pub proof fn lemma_next_token_unique(a1: Tokenizer, a2: Tokenizer, t1: Token, t2: Token)
    requires
        same_reading(a1, a2),
        next_token(a1, t1),
        next_token(a2, t2),
    ensures
        t1.val@ == t2.val@,
        t1.range == t2.range,
{
    if a1.current is None {
        let b1 = choose|b: Tokenizer| #[trigger] lex_read(a1, b, Some(t1));
        let b2 = choose|b: Tokenizer| #[trigger] lex_read(a2, b, Some(t2));
        lemma_lex_step_unique(a1, a2, b1, b2, Some(t1), Some(t2));
    }
}

/// A token and no token cannot both come next.
pub proof fn lemma_next_or_none(a: Tokenizer, t: Token)
    requires
        next_token(a, t),
    ensures
        !no_next_token(a),
{
    if no_next_token(a) {
        let b1 = choose|b: Tokenizer| #[trigger] lex_read(a, b, Some(t));
        let b2 = choose|b: Tokenizer| #[trigger] lex_read(a, b, None);
        lemma_lex_step_unique(a, a, b1, b2, Some(t), None);
    }
}

/// Peeking leaves the next token in the look-ahead slot, or finds none.
pub proof fn lemma_peeked(a: Tokenizer, b: Tokenizer)
    requires
        peeked(a, b),
    ensures
        b.current is Some ==> next_token(a, b.current->0),
        b.current is None ==> no_next_token(a),
        same_reading(a, b) || a.current is None,
{
}

/// Peeking puts the token that comes next in the look-ahead slot.
pub proof fn lemma_peek_finds(a: Tokenizer, b: Tokenizer, t: Token)
    requires
        peeked(a, b),
        next_token(a, t),
    ensures
        b.current is Some,
        b.current->0.val@ == t.val@,
{
    lemma_peeked(a, b);
    if b.current is None {
        lemma_next_or_none(a, t);
    } else {
        lemma_next_token_unique(a, a, b.current->0, t);
    }
}

/// Taking a token takes the next token, and states that read alike are
/// left reading alike.
pub proof fn lemma_taken_unique(a1: Tokenizer, a2: Tokenizer, b1: Tokenizer, b2: Tokenizer, t1: Token, t2: Token)
    requires
        same_reading(a1, a2),
        taken(a1, b1, t1),
        taken(a2, b2, t2),
    ensures
        next_token(a1, t1),
        t1.val@ == t2.val@,
        t1.range == t2.range,
        same_reading(b1, b2),
{
    if a1.current is None {
        lemma_lex_step_unique(a1, a2, b1, b2, Some(t1), Some(t2));
        assert(next_token(a1, t1));
    }
}

/// The token after `t`: `a` hands out `t`, and then `u`.
pub open spec fn then_token(a: Tokenizer, t: Token, u: Token) -> bool {
    exists|b: Tokenizer| #[trigger] taken(a, b, t) && next_token(b, u)
}

/// After `a` hands out `t`, no token follows.
pub open spec fn then_none(a: Tokenizer, t: Token) -> bool {
    exists|b: Tokenizer| #[trigger] taken(a, b, t) && no_next_token(b)
}

/// Where `a` hands out `t0` and reaches `m`, what `then_token` says of
/// `a` is what `m` reads: `t` is `t0`, and `u` comes next in `m`.
pub proof fn lemma_then_token(a: Tokenizer, m: Tokenizer, t0: Token, t: Token, u: Token)
    requires
        taken(a, m, t0),
        then_token(a, t, u),
    ensures
        t.val@ == t0.val@,
        t.range == t0.range,
        forall|u2: Token| #[trigger] next_token(m, u2) ==> u2.val@ == u.val@,
{
    let b = choose|b: Tokenizer| #[trigger] taken(a, b, t) && next_token(b, u);
    lemma_taken_unique(a, a, m, b, t0, t);
    assert forall|u2: Token| #[trigger] next_token(m, u2) implies u2.val@ == u.val@ by {
        lemma_next_token_unique(m, b, u2, u);
    }
}

/// Where `a` hands out `t0` and reaches `m`, what `then_none` says of `a`
/// is what `m` reads: `t` is `t0`, and no token comes next in `m`.
pub proof fn lemma_then_none(a: Tokenizer, m: Tokenizer, t0: Token, t: Token)
    requires
        taken(a, m, t0),
        then_none(a, t),
    ensures
        t.val@ == t0.val@,
        t.range == t0.range,
        forall|u2: Token| !#[trigger] next_token(m, u2),
{
    let b = choose|b: Tokenizer| #[trigger] taken(a, b, t) && no_next_token(b);
    lemma_taken_unique(a, a, m, b, t0, t);
    assert forall|u2: Token| !#[trigger] next_token(m, u2) by {
        if next_token(m, u2) {
            let c = choose|c: Tokenizer| #[trigger] lex_read(m, c, Some(u2));
            let d = choose|d: Tokenizer| #[trigger] lex_read(b, d, None);
            lemma_lex_step_unique(m, b, c, d, Some(u2), None);
        }
    }
}

/// Where `a` hands out `t0` and reaches `m`, a peek from `m` finds the
/// token that `then_token` says follows.
pub proof fn lemma_then_peek(a: Tokenizer, m: Tokenizer, t0: Token, t: Token, u: Token, f: Tokenizer)
    requires
        taken(a, m, t0),
        then_token(a, t, u),
        peeked(m, f),
    ensures
        f.current is Some,
        f.current->0.val@ == u.val@,
        next_reads(f, u.val@),
{
    let b = choose|b: Tokenizer| #[trigger] taken(a, b, t) && next_token(b, u);
    lemma_taken_unique(a, a, m, b, t0, t);
    if m.current is None && b.current is None {
        let c = choose|c: Tokenizer| #[trigger] lex_read(b, c, Some(u));
        lemma_lex_step_unique(m, b, f, c, f.current, Some(u));
    }
}

/// A peek keeps what follows: after `a` is peeked into `m`, the token in
/// the look-ahead slot is `t`, and `u` still follows it.
pub proof fn lemma_peek_then(a: Tokenizer, m: Tokenizer, t: Token, u: Token)
    requires
        peeked(a, m),
        then_token(a, t, u),
    ensures
        m.current is Some,
        m.current->0.val@ == t.val@,
        m.current->0.range == t.range,
        then_token(m, m.current->0, u),
{
    let b = choose|b: Tokenizer| #[trigger] taken(a, b, t) && next_token(b, u);
    if a.current is None {
        lemma_lex_step_unique(a, a, b, m, Some(t), m.current);
        let t1 = m.current->0;
        let b1 = Tokenizer { current: None, ..m };
        assert(taken(m, b1, t1));
        if b.current is None {
            let c = choose|c: Tokenizer| #[trigger] lex_read(b, c, Some(u));
            let c1 = Tokenizer { errors: b1.errors, ..c };
            assert(b1.errors@.take(b1.errors@.len() as int) =~= b1.errors@);
            assert(lex_read(b1, c1, Some(u)));
            assert(next_token(b1, u));
        }
        assert(then_token(m, t1, u));
    } else {
        assert(taken(m, b, t));
    }
}

/// Taking the token in the look-ahead slot leaves next what
/// `then_token` says follows it.
pub proof fn lemma_then_take(a: Tokenizer, m: Tokenizer, t0: Token, t: Token, u: Token)
    requires
        a.current is Some,
        taken(a, m, t0),
        then_token(a, t, u),
    ensures
        next_token(m, u),
{
    let b = choose|b: Tokenizer| #[trigger] taken(a, b, t) && next_token(b, u);
    assert(b == m);
}

/// `a` hands out `t`, then `u`, then `w`.
pub open spec fn then_two(a: Tokenizer, t: Token, u: Token, w: Token) -> bool {
    exists|b: Tokenizer| #[trigger] taken(a, b, t) && then_token(b, u, w)
}

/// After reading `t` from `a`, `f` holds `u` in its look-ahead slot, and
/// whatever `a` hands out after `t` and `u`, `f` hands out after `u`.
pub open spec fn continues(f: Tokenizer, a: Tokenizer, t: Token, u: Token) -> bool {
    &&& f.current is Some
    &&& f.current->0.val@ == u.val@
    &&& f.current->0.range == u.range
    &&& forall|w: Token| #[trigger] then_two(a, t, u, w) ==> then_token(f, f.current->0, w)
    &&& forall|w: Token, x: Token| #[trigger] then_three(a, t, u, w, x) ==> then_two(f, f.current->0, w, x)
}

/// What follows a token depends only on how the lexer reads: states that
/// read alike hand out the same tokens after `u`.
pub proof fn lemma_reading_then(b: Tokenizer, m: Tokenizer, u: Token, w: Token)
    requires
        same_reading(b, m),
        then_token(b, u, w),
    ensures
        then_token(m, u, w),
{
    let x = choose|x: Tokenizer| #[trigger] taken(b, x, u) && next_token(x, w);
    let x1 = Tokenizer { errors: m.errors, filename: m.filename, ..x };
    assert(m.errors@.take(m.errors@.len() as int) =~= m.errors@);
    assert(taken(m, x1, u));
    let y = choose|y: Tokenizer| #[trigger] lex_read(x, y, Some(w));
    let y1 = Tokenizer { errors: x1.errors, filename: x1.filename, ..y };
    assert(lex_read(x1, y1, Some(w)));
    assert(next_token(x1, w));
}

/// Taking the token in the look-ahead slot leaves next the two tokens
/// that `then_two` says follow it.
pub proof fn lemma_then_two_take(a: Tokenizer, m: Tokenizer, t0: Token, t: Token, u: Token, w: Token)
    requires
        a.current is Some,
        taken(a, m, t0),
        then_two(a, t, u, w),
    ensures
        then_token(m, u, w),
        next_token(m, u),
{
    let b = choose|b: Tokenizer| #[trigger] taken(a, b, t) && then_token(b, u, w);
    assert(b == m);
    let c = choose|c: Tokenizer| #[trigger] taken(m, c, u) && next_token(c, w);
    lemma_taken_unique(m, m, c, c, u, u);
}

/// `a` hands out `t`, then `u`, `w` and `v`.
pub open spec fn then_three(a: Tokenizer, t: Token, u: Token, w: Token, v: Token) -> bool {
    exists|b: Tokenizer| #[trigger] taken(a, b, t) && then_two(b, u, w, v)
}

/// States that read alike hand out the same two tokens after `u`.
pub proof fn lemma_reading_then_two(b: Tokenizer, m: Tokenizer, u: Token, w: Token, v: Token)
    requires
        same_reading(b, m),
        then_two(b, u, w, v),
    ensures
        then_two(m, u, w, v),
{
    let x = choose|x: Tokenizer| #[trigger] taken(b, x, u) && then_token(x, w, v);
    let x1 = Tokenizer { errors: m.errors, filename: m.filename, ..x };
    assert(m.errors@.take(m.errors@.len() as int) =~= m.errors@);
    assert(taken(m, x1, u));
    lemma_reading_then(x, x1, w, v);
}

/// A peek keeps the three tokens that follow.
pub proof fn lemma_peek_then_three(a: Tokenizer, m: Tokenizer, t: Token, u: Token, w: Token, v: Token)
    requires
        peeked(a, m),
        then_three(a, t, u, w, v),
    ensures
        m.current is Some,
        m.current->0.val@ == t.val@,
        m.current->0.range == t.range,
        then_three(m, m.current->0, u, w, v),
{
    let b = choose|b: Tokenizer| #[trigger] taken(a, b, t) && then_two(b, u, w, v);
    if a.current is None {
        lemma_lex_step_unique(a, a, b, m, Some(t), m.current);
        let b1 = Tokenizer { current: None, ..m };
        assert(taken(m, b1, m.current->0));
        lemma_reading_then_two(b, b1, u, w, v);
    } else {
        assert(taken(m, b, t));
    }
}

/// Taking the token in the look-ahead slot leaves next the three tokens
/// that `then_three` says follow it.
pub proof fn lemma_then_three_take(a: Tokenizer, m: Tokenizer, t0: Token, t: Token, u: Token, w: Token, v: Token)
    requires
        a.current is Some,
        taken(a, m, t0),
        then_three(a, t, u, w, v),
    ensures
        then_two(m, u, w, v),
{
    let b = choose|b: Tokenizer| #[trigger] taken(a, b, t) && then_two(b, u, w, v);
    assert(b == m);
}

/// Taking a token from a state that hands out `u`, `w` and `v` leaves
/// next `w` and `v`.
pub proof fn lemma_then_two_step(a: Tokenizer, m: Tokenizer, t0: Token, u: Token, w: Token, v: Token)
    requires
        taken(a, m, t0),
        then_two(a, u, w, v),
    ensures
        then_token(m, w, v),
{
    let b = choose|b: Tokenizer| #[trigger] taken(a, b, u) && then_token(b, w, v);
    lemma_taken_unique(a, a, m, b, t0, u);
    lemma_reading_then(b, m, w, v);
}

/// States that read alike hand out the same next token.
pub proof fn lemma_reading_next(b: Tokenizer, m: Tokenizer, w: Token)
    requires
        same_reading(b, m),
        next_token(b, w),
    ensures
        next_token(m, w),
{
    if b.current is None {
        let c = choose|c: Tokenizer| #[trigger] lex_read(b, c, Some(w));
        let c1 = Tokenizer { errors: m.errors, filename: m.filename, ..c };
        assert(m.errors@.take(m.errors@.len() as int) =~= m.errors@);
        assert(lex_read(m, c1, Some(w)));
    }
}

/// `a` hands out `t`, then `u`, `w`, `v` and `z`.
pub open spec fn then_four(a: Tokenizer, t: Token, u: Token, w: Token, v: Token, z: Token) -> bool {
    exists|b: Tokenizer| #[trigger] taken(a, b, t) && then_three(b, u, w, v, z)
}

/// A peek keeps the four tokens that follow.
pub proof fn lemma_peek_then_four(a: Tokenizer, m: Tokenizer, t: Token, u: Token, w: Token, v: Token, z: Token)
    requires
        peeked(a, m),
        then_four(a, t, u, w, v, z),
    ensures
        m.current is Some,
        m.current->0.val@ == t.val@,
        m.current->0.range == t.range,
        then_four(m, m.current->0, u, w, v, z),
{
    let b = choose|b: Tokenizer| #[trigger] taken(a, b, t) && then_three(b, u, w, v, z);
    if a.current is None {
        lemma_lex_step_unique(a, a, b, m, Some(t), m.current);
        let b1 = Tokenizer { current: None, ..m };
        assert(taken(m, b1, m.current->0));
        lemma_reading_then_three(b, b1, u, w, v, z);
    } else {
        assert(taken(m, b, t));
    }
}

/// Taking the token in the look-ahead slot leaves next the four tokens
/// that `then_four` says follow it.
pub proof fn lemma_then_four_take(
    a: Tokenizer,
    m: Tokenizer,
    t0: Token,
    t: Token,
    u: Token,
    w: Token,
    v: Token,
    z: Token,
)
    requires
        a.current is Some,
        taken(a, m, t0),
        then_four(a, t, u, w, v, z),
    ensures
        then_three(m, u, w, v, z),
{
    let b = choose|b: Tokenizer| #[trigger] taken(a, b, t) && then_three(b, u, w, v, z);
    assert(b == m);
}

/// The first of three tokens that follow is the next token, and the
/// second follows it.
pub proof fn lemma_then_three_first(a: Tokenizer, t: Token, u: Token, w: Token, v: Token)
    requires
        then_three(a, t, u, w, v),
    ensures
        then_token(a, t, u),
{
    let b = choose|b: Tokenizer| #[trigger] taken(a, b, t) && then_two(b, u, w, v);
    let c = choose|c: Tokenizer| #[trigger] taken(b, c, u) && then_token(c, w, v);
    assert(next_token(b, u));
}

/// States that read alike hand out the same three tokens after `u`.
pub proof fn lemma_reading_then_three(b: Tokenizer, m: Tokenizer, u: Token, w: Token, v: Token, z: Token)
    requires
        same_reading(b, m),
        then_three(b, u, w, v, z),
    ensures
        then_three(m, u, w, v, z),
{
    let x = choose|x: Tokenizer| #[trigger] taken(b, x, u) && then_two(x, w, v, z);
    let x1 = Tokenizer { errors: m.errors, filename: m.filename, ..x };
    assert(m.errors@.take(m.errors@.len() as int) =~= m.errors@);
    assert(taken(m, x1, u));
    lemma_reading_then_two(x, x1, w, v, z);
}

/// The first of two tokens that follow is the next token.
pub proof fn lemma_then_two_first(a: Tokenizer, t: Token, u: Token, w: Token)
    requires
        then_two(a, t, u, w),
    ensures
        then_token(a, t, u),
{
    let b = choose|b: Tokenizer| #[trigger] taken(a, b, t) && then_token(b, u, w);
    let c = choose|c: Tokenizer| #[trigger] taken(b, c, u) && next_token(c, w);
    lemma_taken_unique(b, b, c, c, u, u);
}

/// A peek keeps the two tokens that follow.
pub proof fn lemma_peek_then_two(a: Tokenizer, m: Tokenizer, t: Token, u: Token, w: Token)
    requires
        peeked(a, m),
        then_two(a, t, u, w),
    ensures
        m.current is Some,
        m.current->0.val@ == t.val@,
        m.current->0.range == t.range,
        then_two(m, m.current->0, u, w),
{
    let b = choose|b: Tokenizer| #[trigger] taken(a, b, t) && then_token(b, u, w);
    if a.current is None {
        lemma_lex_step_unique(a, a, b, m, Some(t), m.current);
        let b1 = Tokenizer { current: None, ..m };
        assert(taken(m, b1, m.current->0));
        lemma_reading_then(b, b1, u, w);
    } else {
        assert(taken(m, b, t));
    }
}

/// The name a token stands for where a name is read: an identifier, a
/// keyword when `allow_keywords`, an integer (as its decimal text) when
/// `allow_ints`.
pub open spec fn name_of(t: TokenVal, allow_ints: bool, allow_keywords: bool) -> Option<Seq<char>> {
    match t {
        TokenVal::Var(v) => Some(v),
        TokenVal::Kw(k) => if allow_keywords {
            Some(k)
        } else {
            None
        },
        TokenVal::Int(i) => if allow_ints {
            Some(int_text(i as int))
        } else {
            None
        },
        _ => None,
    }
}

/// Where a template string that continues at offset `q` stops being plain
/// text: at the first backquote, or the first `$` not escaped by a backslash
/// just before it (`esc` tells whether the character before `q` was one);
/// the length of the input when there is neither.
pub open spec fn template_stop(s: Seq<char>, q: int, esc: bool) -> int
    decreases s.len() - q,
{
    if q < 0 || q >= s.len() {
        s.len() as int
    } else if s[q] == '`' || (s[q] == '$' && !esc) {
        q
    } else {
        template_stop(s, q + 1, s[q] == '\\')
    }
}

/// `e` is `inner` under zero or more suffixes: member accesses, `?`,
/// calls, index accesses and a closing range, applied left to right (the
/// innermost is the first suffix read).
pub open spec fn wraps(e: ASTExpression, inner: ASTExpression) -> bool
    decreases e,
{
    e == inner || match e {
        ASTExpression::DotAccess(d) => wraps(*d.value, inner),
        ASTExpression::Optional(o) => wraps(*o.value, inner),
        ASTExpression::Call(c) => wraps(*c.target, inner),
        ASTExpression::IndexAccess(x) => wraps(*x.value, inner),
        ASTExpression::Iterator(it) => wraps(*it.start, inner),
        _ => false,
    }
}

/// Suffixes over suffixes: wrapping is transitive.
pub proof fn lemma_wraps_trans(e: ASTExpression, x: ASTExpression, y: ASTExpression)
    requires
        wraps(e, x),
        wraps(x, y),
    ensures
        wraps(e, y),
    decreases e,
{
    if e != x {
        match e {
            ASTExpression::DotAccess(d) => lemma_wraps_trans(*d.value, x, y),
            ASTExpression::Optional(o) => lemma_wraps_trans(*o.value, x, y),
            ASTExpression::Call(c) => lemma_wraps_trans(*c.target, x, y),
            ASTExpression::IndexAccess(i) => lemma_wraps_trans(*i.value, x, y),
            ASTExpression::Iterator(it) => lemma_wraps_trans(*it.start, x, y),
            _ => {},
        }
    }
}

/// A token that continues an expression as a suffix: `.`, `?`, `..`,
/// `..=`, `(`, `[` or `:`.
pub open spec fn starts_suffix(v: TokenVal) -> bool {
    ||| v == TokenVal::Op("."@)
    ||| v == TokenVal::Op("?"@)
    ||| v == TokenVal::Op(".."@)
    ||| v == TokenVal::Op("..="@)
    ||| v == TokenVal::Punc('(')
    ||| v == TokenVal::Punc('[')
    ||| v == TokenVal::Punc(':')
}

/// No token that `a` hands out next continues an expression as a suffix.
pub open spec fn no_suffix_next(a: Tokenizer) -> bool {
    forall|t: Token| #[trigger] next_token(a, t) ==> !starts_suffix(t.val@)
}

/// A token that stands for an expression on its own: a number, a string,
/// a character, `none`, a name or a boolean.
pub open spec fn is_literal(v: TokenVal) -> bool {
    v is Int || v is Float || v is Str || v is Char || v is NoneValue || v is Var || v is Bool
}

/// `e` is the expression that the literal token `t` reads as, at the
/// token's range.
pub open spec fn literal_expr(e: ASTExpression, t: Token) -> bool {
    match t.val@ {
        TokenVal::Int(i) => e == ASTExpression::Int(ASTInt { value: i, range: t.range }),
        TokenVal::Float(d, sc) => e matches ASTExpression::Float(f) && f.value.digits@ == d
            && f.value.scale == sc && f.range == t.range,
        TokenVal::Str(v) => e matches ASTExpression::Str(x) && x.value@ == v && x.range == t.range,
        TokenVal::Char(c) => e == ASTExpression::Char(ASTChar { value: c, range: t.range }),
        TokenVal::NoneValue => e == ASTExpression::NoneValue(t.range),
        TokenVal::Var(v) => e matches ASTExpression::Var(x) && x.value@ == v && x.range == t.range,
        TokenVal::Bool(b) => e == ASTExpression::Bool(ASTBool { value: b, range: t.range }),
        _ => false,
    }
}

/// The token is a binary operator that binds tighter than `prec`.
pub open spec fn binds_above(v: TokenVal, prec: i8) -> bool {
    v matches TokenVal::Op(o) && precedence(o) != -1 && precedence(o) > prec
}

/// Every token that `a` hands out next reads as `v`.
pub open spec fn next_reads(a: Tokenizer, v: TokenVal) -> bool {
    forall|u: Token| #[trigger] next_token(a, u) ==> u.val@ == v
}

/// A token after a name that does not continue it as a path or with
/// generic arguments: not `:` and not `<`.
pub open spec fn ends_name(v: TokenVal) -> bool {
    v != TokenVal::Punc(':') && v != TokenVal::Op("<"@)
}

/// A token that starts a typing: `{`, `(`, `[`, a name, `fn` or `impl`.
pub open spec fn starts_typing(v: TokenVal) -> bool {
    ||| v == TokenVal::Punc('{')
    ||| v == TokenVal::Punc('(')
    ||| v == TokenVal::Punc('[')
    ||| v is Var
    ||| v == TokenVal::Kw("fn"@)
    ||| v == TokenVal::Kw("impl"@)
}

/// `a` hands out one field and then the closing `z`: a name `n`, `:`, a
/// type name `ty`, and `z`, the punctuation `closing` (neither `,` nor `:`).
pub open spec fn one_field(a: Tokenizer, n: Token, c: Token, ty: Token, z: Token, closing: char) -> bool {
    &&& then_three(a, n, c, ty, z)
    &&& n.val@ is Var
    &&& c.val@ == TokenVal::Punc(':')
    &&& ty.val@ is Var
    &&& z.val@ == TokenVal::Punc(closing)
    &&& closing != ','
    &&& closing != ':'
}

/// `a` hands out one field and then the punctuation `closing`.
pub open spec fn has_one_field(a: Tokenizer, closing: char) -> bool {
    exists|n: Token, c: Token, ty: Token, z: Token| #[trigger] one_field(a, n, c, ty, z, closing)
}

/// The tokens of the one field that `a` hands out (see [`has_one_field`]).
pub open spec fn field_tokens(a: Tokenizer, closing: char) -> (Token, Token, Token, Token) {
    choose|n: Token, c: Token, ty: Token, z: Token| #[trigger] one_field(a, n, c, ty, z, closing)
}

/// `p` is the field `n: ty`, with no modifier, spread or default.
pub open spec fn field_read(p: ASTPairTypingItem, n: Token, ty: Token) -> bool {
    &&& p.name@ == n.val@->Var_0
    &&& (p.value matches Some(ASTTypings::Var(v)) && v.value.value@ == ty.val@->Var_0 && v.value.range
        == ty.range && v.typings is None)
    &&& !p.spread
    &&& p.default_value is None
    &&& p.modifiers.bits == 0
}

/// A token after a typed name that adds nothing to the typing: not `:`,
/// `<`, `?` or `+`.
pub open spec fn ends_typing(v: TokenVal) -> bool {
    v != TokenVal::Punc(':') && v != TokenVal::Op("<"@) && v != TokenVal::Op("?"@) && v
        != TokenVal::Op("+"@)
}

/// A literal token that is a match arm pattern on its own: a number, a
/// string, a character, a boolean, `none` or `_`.
pub open spec fn pattern_literal(v: TokenVal) -> bool {
    v is Int || v is Float || v is Str || v is Char || v is Bool || v is NoneValue || v == TokenVal::Var(
        "_"@,
    )
}

/// `p` is the pattern that the literal token `t` reads as.
pub open spec fn literal_pattern(p: ASTMatchArmExpressions, t: Token) -> bool {
    match t.val@ {
        TokenVal::Int(i) => p == ASTMatchArmExpressions::Int(ASTInt { value: i, range: t.range }),
        TokenVal::Float(d, sc) => p matches ASTMatchArmExpressions::Float(f) && f.value.digits@ == d
            && f.value.scale == sc && f.range == t.range,
        TokenVal::Str(v) => p matches ASTMatchArmExpressions::String(x) && x.value@ == v && x.range
            == t.range,
        TokenVal::Bool(b) => p == ASTMatchArmExpressions::Bool(ASTBool { value: b, range: t.range }),
        TokenVal::Char(c) => p == ASTMatchArmExpressions::Char(ASTChar { value: c, range: t.range }),
        TokenVal::NoneValue => p == ASTMatchArmExpressions::NoneValue(t.range),
        TokenVal::Var(_) => p is Rest,
        _ => false,
    }
}

/// `a` hands out a literal, then `{` and `}`: a match without arms.
pub open spec fn empty_match_next(a: Tokenizer) -> bool {
    exists|t: Token, u: Token, w: Token|
        #[trigger] then_two(a, t, u, w) && is_literal(t.val@) && u.val@ == TokenVal::Punc('{')
            && w.val@ == TokenVal::Punc('}')
}

/// `a` hands out `main`, `{` and `}`: an empty entry point.
pub open spec fn empty_main_next(a: Tokenizer) -> bool {
    exists|t: Token, u: Token, w: Token|
        #[trigger] then_two(a, t, u, w) && t.val@ == TokenVal::Kw("main"@) && u.val@
            == TokenVal::Punc('{') && w.val@ == TokenVal::Punc('}')
}

/// `a` hands out `::`, a name and then `v`, which ends the path: not `:`,
/// `<` or `(`.
pub open spec fn path_step_next(a: Tokenizer, t: Token, u: Token, w: Token, v: Token) -> bool {
    &&& then_three(a, t, u, w, v)
    &&& t.val@ == TokenVal::Punc(':')
    &&& u.val@ == TokenVal::Punc(':')
    &&& w.val@ is Var
    &&& v.val@ != TokenVal::Punc(':')
    &&& v.val@ != TokenVal::Op("<"@)
    &&& v.val@ != TokenVal::Punc('(')
}

/// The statements among the results of successive statement reads, in
/// order.
pub open spec fn read_statements(s: Seq<LazyResult<ASTStatement>>) -> Seq<ASTStatement>
    decreases s.len(),
{
    if s.len() == 0 {
        Seq::empty()
    } else {
        match s.last() {
            Ok(x) => read_statements(s.drop_last()).push(x),
            Err(_) => read_statements(s.drop_last()),
        }
    }
}

/// Every read gave a statement or an error.
pub proof fn lemma_reads_len(s: Seq<LazyResult<ASTStatement>>)
    ensures
        read_statements(s).len() + read_errors(s).len() == s.len(),
    decreases s.len(),
{
    if s.len() > 0 {
        lemma_reads_len(s.drop_last());
    }
}

/// The errors among the results of successive statement reads, in order.
pub open spec fn read_errors(s: Seq<LazyResult<ASTStatement>>) -> Seq<BaseError>
    decreases s.len(),
{
    if s.len() == 0 {
        Seq::empty()
    } else {
        match s.last() {
            Ok(_) => read_errors(s.drop_last()),
            Err(e) => read_errors(s.drop_last()).push(e),
        }
    }
}

/// The parser: the token stream and a few flags.
pub struct Parser {
    pub tokens: Tokenizer,
    pub is_last_block: bool,
    pub allow_exp_statements: bool,
    pub parsed_main: bool,
}

/// The parser is sound: the lexer is well formed and reads numbers as numbers.
pub open spec fn parser_ok(p: Parser) -> bool {
    p.tokens.wf() && !p.tokens.is_last_num_as_str
}

/// `b` is `a` after some parsing: still sound, the same source, errors
/// only added, no more work left.
pub open spec fn parsed(a: Parser, b: Parser) -> bool {
    parser_ok(b) && Tokenizer::moved_on(a.tokens, b.tokens)
}

/// `b` is `a` after reading one statement that gave `r`: what reading a
/// statement promises (see [`Parser::parse_statement`]).
pub open spec fn statement_read(a: Parser, b: Parser, r: LazyResult<ASTStatement>) -> bool {
    &&& parsed(a, b)
    &&& r is Ok ==> left(b) < left(a)
    &&& a.parsed_main ==> b.parsed_main
    &&& r is Ok && declares_main(r->Ok_0) ==> !a.parsed_main && b.parsed_main
    &&& r is Ok && !declares_main(r->Ok_0) ==> b.parsed_main == a.parsed_main
    &&& (exists|t: Token| #[trigger] next_token(a.tokens, t) && t.val@ == TokenVal::Kw("main"@))
        && a.parsed_main ==> (r is Err && error_is(
        r->Err_0,
        DiagnosticId::ManyEntries,
        Seq::empty(),
        Range { start: a.tokens.input.spec_loc(), end: b.tokens.last_loc },
    ))
    &&& forall|t: Token, u: Token, w: Token|
        #[trigger] then_two(a.tokens, t, u, w) && t.val@ == TokenVal::Kw("main"@) && u.val@
            == TokenVal::Punc('{') && w.val@ == TokenVal::Punc('}') && !a.parsed_main ==> (r matches Ok(
            ASTStatement::Main(m),
        ) && m.expression.elements@.len() == 0)
}

/// `states` are the parser's states from `a` to `b` as it read statement
/// after statement, `results` what each read gave.
pub open spec fn reads_in_order(
    states: Seq<Parser>,
    results: Seq<LazyResult<ASTStatement>>,
    a: Parser,
    b: Parser,
) -> bool {
    &&& states.len() == results.len() + 1
    &&& states[0] == a
    &&& states.last() == b
    &&& forall|i: int| 0 <= i < results.len() ==> #[trigger] statement_read(states[i], states[i + 1], results[i])
}

/// The work left to the parser (see [`Tokenizer::remaining`]).
pub open spec fn left(p: Parser) -> nat {
    p.tokens.remaining()
}

impl Parser {
    /// A parser at the start of `source`.
    pub fn new(source: &str, filename: String) -> (p: Self)
        requires
            source@.len() < usize::MAX,
        ensures
            parser_ok(p),
            p.tokens.input.code() == source@,
            p.tokens.input.pos() == 0,
            p.tokens.current is None,
            p.tokens.errors@.len() == 0,
            p.tokens.filename == filename,
            !p.parsed_main,
    {
        Parser {
            tokens: Tokenizer::new(source, filename),
            parsed_main: false,
            is_last_block: false,
            allow_exp_statements: false,
        }
    }

    /// Starts over on `source`.
    pub fn reset(&mut self, source: &str, filename: String)
        requires
            source@.len() < usize::MAX,
        ensures
            parser_ok(*final(self)),
            final(self).tokens.input.code() == source@,
            final(self).tokens.input.pos() == 0,
            final(self).tokens.current is None,
            final(self).tokens.errors@.len() == 0,
            final(self).tokens.filename == filename,
            !final(self).parsed_main,
    {
        self.tokens = Tokenizer::new(source, filename);
        self.parsed_main = false;
        self.is_last_block = false;
        self.allow_exp_statements = false;
    }

    /// The precedence of a binary operator (see [`precedence`]).
    fn get_prec(op: &str) -> (p: i8)
        ensures
            p == precedence(op@),
    {
        if str_eq(op, "=") || str_eq(op, "+=") || str_eq(op, "-=") || str_eq(op, "*=") || str_eq(
            op,
            "/=",
        ) || str_eq(op, "%=") {
            1
        } else if str_eq(op, "&") || str_eq(op, "|") || str_eq(op, "^") {
            2
        } else if str_eq(op, "<<") {
            3
        } else if str_eq(op, "||") {
            5
        } else if str_eq(op, "&&") {
            7
        } else if str_eq(op, "<") || str_eq(op, ">") || str_eq(op, "<=") || str_eq(op, ">=")
            || str_eq(op, "==") || str_eq(op, "!=") {
            10
        } else if str_eq(op, "+") || str_eq(op, "-") {
            15
        } else if str_eq(op, "*") || str_eq(op, "/") || str_eq(op, "%") {
            20
        } else {
            -1
        }
    }

    /// Whether the next token is the operator `op` (or there is none).
    fn next_is_op(&mut self, op: &str) -> (r: bool)
        requires
            parser_ok(*old(self)),
        ensures
            parsed(*old(self), *final(self)),
            peeked(old(self).tokens, final(self).tokens),
            final(self).is_last_block == old(self).is_last_block,
            final(self).allow_exp_statements == old(self).allow_exp_statements,
            final(self).parsed_main == old(self).parsed_main,
            r == (final(self).tokens.current is None || final(self).tokens.current->0.val@
                == TokenVal::Op(op@)),
    {
        self.tokens.is_next(TokenType::Op(to_owned_string(op)))
    }

    /// Whether the next token is the punctuation `c` (or there is none).
    fn next_is_punc(&mut self, c: char) -> (r: bool)
        requires
            parser_ok(*old(self)),
        ensures
            parsed(*old(self), *final(self)),
            peeked(old(self).tokens, final(self).tokens),
            final(self).is_last_block == old(self).is_last_block,
            final(self).allow_exp_statements == old(self).allow_exp_statements,
            final(self).parsed_main == old(self).parsed_main,
            r == (final(self).tokens.current is None || final(self).tokens.current->0.val@
                == TokenVal::Punc(c)),
    {
        self.tokens.is_next(TokenType::Punc(c))
    }

    /// Whether the next token is the keyword `kw` (or there is none).
    fn next_is_kw(&mut self, kw: &str) -> (r: bool)
        requires
            parser_ok(*old(self)),
        ensures
            parsed(*old(self), *final(self)),
            peeked(old(self).tokens, final(self).tokens),
            final(self).is_last_block == old(self).is_last_block,
            final(self).allow_exp_statements == old(self).allow_exp_statements,
            final(self).parsed_main == old(self).parsed_main,
            r == (final(self).tokens.current is None || final(self).tokens.current->0.val@
                == TokenVal::Kw(kw@)),
    {
        self.tokens.is_next(TokenType::Kw(to_owned_string(kw)))
    }

    /// Takes the next token, if any.
    fn bump(&mut self)
        requires
            parser_ok(*old(self)),
        ensures
            parsed(*old(self), *final(self)),
            old(self).tokens.current is Some ==> left(*final(self)) < left(*old(self)),
            old(self).tokens.current is Some ==> taken(
                old(self).tokens,
                final(self).tokens,
                old(self).tokens.current->0,
            ),
            final(self).tokens.current is None,
            final(self).is_last_block == old(self).is_last_block,
            final(self).allow_exp_statements == old(self).allow_exp_statements,
            final(self).parsed_main == old(self).parsed_main,
    {
        let t = self.tokens.consume();
    }

    /// Takes the next token when it is `tok`, else fails (see
    /// [`Tokenizer::skip_or_err`]).
    fn expect(&mut self, tok: TokenType, e: Option<BaseError>) -> (r: LazyResult<()>)
        requires
            parser_ok(*old(self)),
        ensures
            parsed(*old(self), *final(self)),
            r is Ok ==> left(*final(self)) < left(*old(self)),
            r is Ok ==> final(self).tokens.current is None,
            r is Ok ==> exists|t: Token| t.val@ == tok@ && #[trigger] next_token(old(self).tokens, t),
            r is Ok ==> exists|t: Token| t.val@ == tok@ && #[trigger] taken(
                old(self).tokens,
                final(self).tokens,
                t,
            ),
            r is Err ==> forall|t: Token| #[trigger] next_token(old(self).tokens, t) ==> t.val@ != tok@,
            final(self).is_last_block == old(self).is_last_block,
            final(self).allow_exp_statements == old(self).allow_exp_statements,
            final(self).parsed_main == old(self).parsed_main,
    {
        let ghost a = self.tokens;
        let r = self.tokens.skip_or_err(tok, e);
        proof {
            let b = self.tokens;
            if r is Ok {
                let t = choose|t: Token| t.val@ == tok@ && #[trigger] taken(a, b, t);
                lemma_taken_unique(a, a, b, b, t, t);
            } else {
                lemma_peeked(a, b);
                assert forall|t: Token| #[trigger] next_token(a, t) implies t.val@ != tok@ by {
                    lemma_next_or_none(a, t);
                    if b.current is Some {
                        lemma_next_token_unique(a, a, t, b.current->0);
                    }
                }
            }
        }
        r
    }
}


impl Parser {
    /// A copy of the next token's value and range, left in the look-ahead slot.
    fn peek_val(&mut self) -> (r: Option<(TokenType, Range)>)
        requires
            parser_ok(*old(self)),
        ensures
            parsed(*old(self), *final(self)),
            final(self).is_last_block == old(self).is_last_block,
            final(self).allow_exp_statements == old(self).allow_exp_statements,
            final(self).parsed_main == old(self).parsed_main,
            r is Some <==> final(self).tokens.current is Some,
            r is Some ==> ({
                let v = r->0;
                let c = final(self).tokens.current->0;
                v.0@ == c.val@ && v.1 == c.range
            }),
            peeked(old(self).tokens, final(self).tokens),
    {
        match self.tokens.peek() {
            Some(t) => Some((t.val.duplicate(), t.range)),
            None => None,
        }
    }

    /// Reads a name: an identifier, a keyword (with `allow_keywords`) or an
    /// integer (with `allow_ints`, read as text), then its generic
    /// arguments when `allow_generics` and a `<` follows.
    fn parse_varname(
        &mut self,
        allow_generics: bool,
        only_varnames_as_generics: bool,
        allow_ints: bool,
        allow_keywords: bool,
    ) -> (r: LazyResult<(ASTVar, Option<ASTListTyping>)>)
        requires
            parser_ok(*old(self)),
        ensures
            parsed(*old(self), *final(self)),
            final(self).parsed_main == old(self).parsed_main,
            r is Ok ==> left(*final(self)) < left(*old(self)),
            r is Ok ==> exists|t: Token|
                #[trigger] next_token(with_num_mode(old(self).tokens, allow_ints), t) && name_of(t.val@, allow_ints, allow_keywords) == Some(r->Ok_0.0.value@)
                    && r->Ok_0.0.range == t.range,
            r matches Ok((_, g)) && g is Some ==> allow_generics,
            !allow_generics && (exists|t: Token|
                #[trigger] next_token(with_num_mode(old(self).tokens, allow_ints), t) && name_of(t.val@, allow_ints, allow_keywords) is Some)
                ==> r is Ok,
            (forall|t: Token|
                #[trigger] next_token(with_num_mode(old(self).tokens, allow_ints), t) ==> name_of(t.val@, allow_ints, allow_keywords) is None)
                ==> r is Err,
            !allow_generics && r is Ok ==> exists|b: Tokenizer, t: Token|
                #[trigger] taken(with_num_mode(old(self).tokens, allow_ints), b, t) && name_of(t.val@, allow_ints, allow_keywords)
                    == Some(r->Ok_0.0.value@) && peeked(with_num_mode(b, false), final(self).tokens),
            forall|t: Token, u: Token|
                #[trigger] then_token(old(self).tokens, t, u) && !allow_ints && name_of(
                    t.val@,
                    false,
                    allow_keywords,
                ) is Some ==> (u.val@ != TokenVal::Op("<"@) ==> (r matches Ok(v) && v.1 is None)) && (
                u.val@ == TokenVal::Op("<"@) && allow_generics ==> (r matches Ok(v) ==> v.1 is Some)),
        decreases left(*old(self)), 1nat,
    {
        if allow_ints {
            self.tokens.is_last_num_as_str = true;
        }
        let ghost pre = self.tokens;
        let next = self.tokens.consume();
        let ghost mid = self.tokens;
        proof {
            assert(pre == with_num_mode(old(self).tokens, allow_ints));
            if next is Some {
                if pre.current is None {
                    assert(lex_read(pre, mid, next));
                }
                assert(next_token(pre, next->0));
            } else {
                assert(lex_read(pre, mid, None));
                assert(no_next_token(pre));
            }
            if exists|t: Token| #[trigger] next_token(pre, t) && name_of(t.val@, allow_ints, allow_keywords) is Some {
                let t = choose|t: Token| #[trigger] next_token(pre, t) && name_of(t.val@, allow_ints, allow_keywords) is Some;
                lemma_next_or_none(pre, t);
                if next is Some {
                    lemma_next_token_unique(pre, pre, t, next->0);
                }
            }
        }
        if allow_ints {
            self.tokens.is_last_num_as_str = false;
        }
        let unwrapped = match next {
            Some(val) => val,
            None => {
                return Err(err1(DiagnosticId::Expected, self.tokens.range_here(), "identifier"));
            },
        };
        let range = unwrapped.range;
        let var = match unwrapped.val {
            TokenType::Var(v) => ASTVar { value: v, range },
            TokenType::Kw(kw) => {
                if allow_keywords {
                    ASTVar { value: kw, range }
                } else {
                    let text = TokenType::Kw(kw).to_display_string();
                    return Err(
                        err2(DiagnosticId::ExpectedFound, range, "identifier", text.as_str()),
                    );
                }
            },
            TokenType::Int(i) => {
                if allow_ints {
                    ASTVar { value: i32_to_string(i), range }
                } else {
                    let text = TokenType::Int(i).to_display_string();
                    return Err(
                        err2(DiagnosticId::ExpectedFound, range, "identifier", text.as_str()),
                    );
                }
            },
            other => {
                let text = other.to_display_string();
                return Err(err2(DiagnosticId::ExpectedFound, range, "identifier", text.as_str()));
            },
        };
        let ghost m1 = self.tokens;
        let lt = self.next_is_op("<");
        proof {
            if !allow_ints {
                assert(with_num_mode(old(self).tokens, false) == old(self).tokens);
                assert forall|t: Token, u: Token| #[trigger]
                    then_token(old(self).tokens, t, u) implies self.tokens.current is Some
                    && self.tokens.current->0.val@ == u.val@ by {
                    lemma_then_peek(old(self).tokens, m1, unwrapped, t, u, self.tokens);
                }
            }
        }
        if lt {
            if !allow_generics {
                return Ok((var, None));
            }
            self.bump();
            let list = match self.parse_typing_list(
                only_varnames_as_generics,
                false,
                TokenType::Op(to_owned_string(">")),
            ) {
                Ok(l) => l,
                Err(e) => return Err(e),
            };
            return Ok((var, Some(list)));
        }
        Ok((var, None))
    }

    /// Reads a list of typings up to `closing_tok`, separated by commas.
    /// With `only_varnames_and_bounds` each entry is a plain name, possibly
    /// bounded (`T: Bound`).
    fn parse_typing_list(
        &mut self,
        only_varnames_and_bounds: bool,
        allow_fn_keyword: bool,
        closing_tok: TokenType,
    ) -> (r: LazyResult<ASTListTyping>)
        requires
            parser_ok(*old(self)),
        ensures
            parsed(*old(self), *final(self)),
            final(self).parsed_main == old(self).parsed_main,
            r is Ok ==> left(*final(self)) < left(*old(self)),
            (exists|t: Token| #[trigger]
                next_token(old(self).tokens, t) && t.val@ == closing_tok@)
                ==> (r matches Ok(l) && l.entries@.len() == 0),
        decreases left(*old(self)), 5nat,
    {
        let range = self.tokens.input.loc();
        let mut res: Vec<ASTTypings> = Vec::new();
        let mut is_first = true;
        let ghost mut first = true;
        while !self.tokens.is_next(closing_tok.duplicate())
            invariant
                parsed(*old(self), *self),
                first ==> self.tokens == old(self).tokens && res@.len() == 0,
                (exists|t: Token| #[trigger]
                    next_token(old(self).tokens, t) && t.val@ == closing_tok@)
                    ==> first,
                self.parsed_main == old(self).parsed_main,
                !is_first ==> left(*self) < left(*old(self)),
            decreases left(*self),
        {
            proof {
                if first {
                    assert forall|t: Token| #[trigger]
                        next_token(old(self).tokens, t) implies t.val@ != closing_tok@ by {
                        lemma_peek_finds(old(self).tokens, self.tokens, t);
                    }
                }
                first = false;
            }
            let ghost before = *self;
            if !is_first {
                match self.expect(TokenType::Punc(','), None) {
                    Ok(_) => {},
                    Err(e) => return Err(e),
                }
            }
            let id_range = self.tokens.input.loc();
            let typing = match self.parse_typing(
                allow_fn_keyword,
                false,
                !only_varnames_and_bounds,
            ) {
                Ok(t) => t,
                Err(e) => return Err(e),
            };
            if only_varnames_and_bounds {
                match typing {
                    ASTTypings::Var(v) => {
                        if v.typings.is_some() {
                            return Err(err0(DiagnosticId::NoGenerics, v.range));
                        }
                        if self.next_is_punc(':') {
                            self.bump();
                            let bound = match self.parse_typing(false, false, true) {
                                Ok(b) => b,
                                Err(e) => return Err(e),
                            };
                            let vrange = v.range;
                            res.push(
                                ASTTypings::Bound(
                                    ASTBoundTyping {
                                        name: ASTVar { value: v.value.value, range: vrange },
                                        bound: Box::new(bound),
                                        range: range.end(&self.tokens.last_loc),
                                    },
                                ),
                            );
                            is_first = false;
                            continue;
                        }
                        res.push(ASTTypings::Var(v));
                    },
                    _ => {
                        return Err(
                            err1(
                                DiagnosticId::Expected,
                                id_range.end(&self.tokens.last_loc),
                                "generic parameter",
                            ),
                        );
                    },
                }
            } else {
                res.push(typing);
            }
            is_first = false;
        }
        proof {
            if self.tokens.current is Some {
                assert(next_token(self.tokens, self.tokens.current->0));
            }
            if exists|t: Token| #[trigger]
                next_token(old(self).tokens, t) && t.val@ == closing_tok@ {
                let t = choose|t: Token| #[trigger]
                    next_token(old(self).tokens, t) && t.val@ == closing_tok@;
                lemma_peek_finds(old(self).tokens, self.tokens, t);
            }
        }
        match self.expect(closing_tok, None) {
            Ok(_) => {},
            Err(e) => return Err(e),
        }
        Ok(ASTListTyping { entries: res, range: range.end(&self.tokens.last_loc) })
    }
}


impl Parser {
    /// Reads a typing: `{ fields }`, a function signature `(params) -> R`,
    /// a tuple `[..]`, a name or module path with generics, `fn` (with
    /// `allow_fn_keyword`), or `impl T`; then `?` (with
    /// `allow_optional_after_var`) or `+ other`. Anything else is an error.
    #[verifier::rlimit(60)]
    fn parse_typing(
        &mut self,
        allow_fn_keyword: bool,
        allow_optional_after_var: bool,
        allow_mod: bool,
    ) -> (r: LazyResult<ASTTypings>)
        requires
            parser_ok(*old(self)),
        ensures
            parsed(*old(self), *final(self)),
            final(self).parsed_main == old(self).parsed_main,
            r is Ok ==> left(*final(self)) < left(*old(self)),
            forall|t: Token, u: Token|
                #[trigger] then_token(old(self).tokens, t, u) && t.val@ is Var && ends_typing(u.val@)
                    ==> (r matches Ok(ASTTypings::Var(v)) && v.value.value@ == t.val@->Var_0
                    && v.value.range == t.range && v.typings is None && final(self).tokens.current is Some
                    && final(self).tokens.current->0.val@ == u.val@),
            forall|t: Token, u: Token|
                #[trigger] then_token(old(self).tokens, t, u) && t.val@ is Var && u.val@ == TokenVal::Op(
                    "?"@,
                ) && allow_optional_after_var ==> (r matches Ok(ASTTypings::Optional(b)) && (
                *b matches ASTTypings::Var(v) && v.value.value@ == t.val@->Var_0 && v.value.range
                    == t.range && v.typings is None)),
            (forall|t: Token| #[trigger] next_token(old(self).tokens, t) ==> !starts_typing(t.val@))
                ==> (r is Err && error_is(
                r->Err_0,
                DiagnosticId::Expected,
                seq!["typing"@],
                Range { start: final(self).tokens.last_loc, end: final(self).tokens.last_loc },
            )),
        decreases left(*old(self)), 4nat,
    {
        let ghost good = exists|t: Token, u: Token|
            #[trigger] then_token(old(self).tokens, t, u) && t.val@ is Var && ends_name(u.val@);
        let range = self.tokens.input.loc();
        let next = self.peek_val();
        let ghost m0 = self.tokens;
        proof {
            assert forall|t: Token, u: Token| #[trigger]
                then_token(old(self).tokens, t, u) implies m0.current is Some && m0.current->0.val@
                == t.val@ && m0.current->0.range == t.range && then_token(m0, m0.current->0, u) by {
                lemma_peek_then(old(self).tokens, m0, t, u);
            }
            lemma_peeked(old(self).tokens, m0);
            reveal_strlit("fn");
            reveal_strlit("impl");
            reveal_strlit("?");
            reveal_strlit("<");
            assert(("?"@)[0] != ("<"@)[0]);
        }
        let typing: ASTTypings = match next {
            Some((TokenType::Punc('{'), _)) => {
                self.bump();
                match self.parse_typing_pair_list(false, false, false, true, false, '}') {
                    Ok(l) => ASTTypings::PairList(l),
                    Err(e) => return Err(e),
                }
            },
            Some((TokenType::Punc('('), _)) => {
                self.bump();
                let params = match self.parse_typing_pair_list(
                    false,
                    allow_fn_keyword,
                    true,
                    false,
                    false,
                    ')',
                ) {
                    Ok(l) => l,
                    Err(e) => return Err(e),
                };
                let return_type = if self.next_is_op("->") {
                    self.bump();
                    match self.parse_typing(allow_fn_keyword, true, allow_mod) {
                        Ok(ty) => Some(Box::new(ty)),
                        Err(e) => return Err(e),
                    }
                } else {
                    None
                };
                ASTTypings::Function(
                    ASTFunction {
                        params: Box::new(params),
                        return_type,
                        range: range.end(&self.tokens.last_loc),
                        typings: None,
                        body: None,
                    },
                )
            },
            Some((TokenType::Punc('['), _)) => {
                self.bump();
                match self.parse_typing_list(false, false, TokenType::Punc(']')) {
                    Ok(l) => ASTTypings::Tuple(l),
                    Err(e) => return Err(e),
                }
            },
            Some((TokenType::Var(name), tok_range)) => {
                let var = ASTVar { value: name, range: tok_range };
                self.bump();
                let ghost m1 = self.tokens;
                proof {
                    assert forall|t: Token, u: Token| #[trigger]
                        then_token(old(self).tokens, t, u) implies next_token(m1, u) by {
                        lemma_then_take(m0, m1, m0.current->0, m0.current->0, u);
                    }
                    if good {
                        let (t, u) = choose|t: Token, u: Token|
                            #[trigger] then_token(old(self).tokens, t, u) && t.val@ is Var && ends_name(
                                u.val@,
                            );
                        assert(next_token(m1, u));
                    }
                }
                let typing_read = if allow_mod {
                    match self.parse_mod_access_or_var(var, false, true) {
                        Ok(ASTModAccessValues::ModAccess(acc)) => ASTTypings::Mod(acc),
                        Ok(ASTModAccessValues::Var(v)) => ASTTypings::Var(v),
                        Err(e) => return Err(e),
                    }
                } else {
                    let typings = if self.next_is_op("<") {
                        self.bump();
                        match self.parse_typing_list(false, false, TokenType::Op(to_owned_string(">"))) {
                            Ok(l) => Some(l),
                            Err(e) => return Err(e),
                        }
                    } else {
                        None
                    };
                    ASTTypings::Var(ASTVarTyping { value: var, range: tok_range, typings })
                };
                proof {
                    assert forall|t: Token, u: Token| #[trigger]
                        then_token(old(self).tokens, t, u) && t.val@ is Var && ends_name(
                            u.val@,
                        ) implies self.tokens.current is Some && self.tokens.current->0.val@
                        == u.val@ by {
                        lemma_peek_finds(m1, self.tokens, u);
                    }
                }
                typing_read
            },
            Some((TokenType::Kw(kw), _)) => {
                if str_eq(kw.as_str(), "fn") {
                    if !allow_fn_keyword {
                        return Err(
                            err1_help(
                                DiagnosticId::Unexpected,
                                self.tokens.range_here(),
                                "keyword fn",
                                "Only function signatures are allowed here. Remove the `fn` and the function body, if there is one.",
                            ),
                        );
                    }
                    self.bump();
                    match self.parse_function(true) {
                        Ok(f) => ASTTypings::Function(f),
                        Err(e) => return Err(e),
                    }
                } else if str_eq(kw.as_str(), "impl") {
                    self.bump();
                    let val = match self.parse_typing(false, false, true) {
                        Ok(v) => v,
                        Err(e) => return Err(e),
                    };
                    match val {
                        ASTTypings::Var(_) | ASTTypings::Mod(_) => ASTTypings::Impl(
                            ASTImplTyping {
                                value: Box::new(val),
                                range: range.end(&self.tokens.last_loc),
                            },
                        ),
                        _ => {
                            return Err(
                                err1_help(
                                    DiagnosticId::Expected,
                                    range.end(&self.tokens.last_loc),
                                    "identifier or module access",
                                    "Save the typing via the \"type\" keyword.",
                                ),
                            );
                        },
                    }
                } else {
                    return Err(err1(DiagnosticId::Expected, self.tokens.range_here(), "typing"));
                }
            },
            _ => {
                return Err(err1(DiagnosticId::Expected, self.tokens.range_here(), "typing"));
            },
        };
        let after = self.peek_val();
        match after {
            Some((TokenType::Op(op), _)) => {
                if str_eq(op.as_str(), "?") && allow_optional_after_var {
                    self.bump();
                    Ok(ASTTypings::Optional(Box::new(typing)))
                } else if str_eq(op.as_str(), "+") {
                    self.bump();
                    let right = match self.parse_typing(false, false, allow_mod) {
                        Ok(r) => r,
                        Err(e) => return Err(e),
                    };
                    Ok(
                        ASTTypings::Combine(
                            ASTCombineTyping {
                                left: Box::new(typing),
                                right: Box::new(right),
                                range: range.end(&self.tokens.last_loc),
                            },
                        ),
                    )
                } else {
                    Ok(typing)
                }
            },
            _ => Ok(typing),
        }
    }

    /// Reads a name, then what [`Parser::parse_mod_access_or_var`] reads after it.
    pub fn parse_mod_access_or_var_without_var(
        &mut self,
        allow_exp_end: bool,
        allow_typings: bool,
    ) -> (r: LazyResult<ASTModAccessValues>)
        requires
            parser_ok(*old(self)),
        ensures
            parsed(*old(self), *final(self)),
            final(self).parsed_main == old(self).parsed_main,
            r is Ok ==> left(*final(self)) < left(*old(self)),
            r matches Ok(ASTModAccessValues::Var(v)) ==> exists|t: Token|
                #[trigger] next_token(with_num_mode(old(self).tokens, false), t) && name_of(t.val@, false, false)
                    == Some(v.value.value@),
            r matches Ok(ASTModAccessValues::ModAccess(m)) ==> m.path@.len() >= 1 && exists|t: Token|
                #[trigger] next_token(with_num_mode(old(self).tokens, false), t) && name_of(t.val@, false, false)
                    == Some(m.path@[0].value@),
            (exists|t: Token, u: Token|
                #[trigger] then_token(old(self).tokens, t, u) && t.val@ is Var && u.val@ != TokenVal::Punc(':')
                    && u.val@ != TokenVal::Op("<"@)) ==> (r matches Ok(ASTModAccessValues::Var(v)) && v.typings is None),
        decreases left(*old(self)), 10nat,
    {
        let ghost a = self.tokens;
        let ghost named = exists|t: Token, u: Token|
            #[trigger] then_token(a, t, u) && t.val@ is Var && u.val@ != TokenVal::Punc(':') && u.val@ != TokenVal::Op("<"@);
        proof {
            assert(with_num_mode(a, false) == a);
            if named {
                let (t, u) = choose|t: Token, u: Token|
                    #[trigger] then_token(a, t, u) && t.val@ is Var && u.val@ != TokenVal::Punc(':') && u.val@ != TokenVal::Op("<"@);
                let b = choose|b: Tokenizer| #[trigger] taken(a, b, t) && next_token(b, u);
                lemma_taken_unique(a, a, b, b, t, t);
            }
        }
        let name = match self.parse_varname(false, false, false, false) {
            Ok(n) => n.0,
            Err(e) => return Err(e),
        };
        proof {
            if named {
                let mid = self.tokens;
                let (t, u) = choose|t: Token, u: Token|
                    #[trigger] then_token(a, t, u) && t.val@ is Var && u.val@ != TokenVal::Punc(':') && u.val@ != TokenVal::Op("<"@);
                let b = choose|b: Tokenizer| #[trigger] taken(a, b, t) && next_token(b, u);
                let (b2, t2) = choose|b2: Tokenizer, t2: Token|
                    #[trigger] taken(with_num_mode(a, false), b2, t2) && name_of(t2.val@, false, false) == Some(name.value@)
                        && peeked(with_num_mode(b2, false), mid);
                lemma_taken_unique(a, a, b, b2, t, t2);
                assert(with_num_mode(b2, false) == b2);
                lemma_peeked(b2, mid);
                if mid.current is Some {
                    lemma_next_token_unique(b, b2, u, mid.current->0);
                    assert(next_token(mid, mid.current->0));
                } else {
                    let c2 = choose|c: Tokenizer| #[trigger] lex_read(b2, c, None);
                    if b.current is None {
                        let c1 = choose|c: Tokenizer| #[trigger] lex_read(b, c, Some(u));
                        lemma_lex_step_unique(b, b2, c1, c2, Some(u), None);
                    }
                }
            }
        }
        self.parse_mod_access_or_var(name, allow_exp_end, allow_typings)
    }

    /// After the name `start`: a module path `start::a::b`, with generic
    /// arguments (with `allow_typings`) and an initializer `(..)` (with
    /// `allow_exp_end`); or the plain name with its generic arguments.
    #[verifier::rlimit(80)]
    pub fn parse_mod_access_or_var(
        &mut self,
        start: ASTVar,
        allow_exp_end: bool,
        allow_typings: bool,
    ) -> (r: LazyResult<ASTModAccessValues>)
        requires
            parser_ok(*old(self)),
        ensures
            parsed(*old(self), *final(self)),
            final(self).parsed_main == old(self).parsed_main,
            r matches Ok(ASTModAccessValues::Var(v)) ==> v.value == start && v.range == start.range
                && (v.typings is Some ==> allow_typings),
            r matches Ok(ASTModAccessValues::ModAccess(m)) ==> m.path@.len() >= 1 && m.path@[0] == start
                && (m.typings is Some ==> allow_typings) && (m.init is Some ==> allow_exp_end),
            (exists|t: Token|
                #[trigger] next_token(old(self).tokens, t) && t.val@ != TokenVal::Punc(':') && t.val@ != TokenVal::Op("<"@))
                ==> (r matches Ok(ASTModAccessValues::Var(v)) && v.typings is None && peeked(
                old(self).tokens,
                final(self).tokens,
            )),
            forall|t: Token, u: Token, w: Token, v: Token|
                #[trigger] path_step_next(old(self).tokens, t, u, w, v) ==> (r matches Ok(
                    ASTModAccessValues::ModAccess(m),
                ) && m.path@.len() == 2 && m.path@[0] == start && m.path@[1].value@ == w.val@->Var_0
                    && m.path@[1].range == w.range && m.typings is None && m.init is None),
        decreases left(*old(self)), 9nat,
    {
        let ghost a = self.tokens;
        let colon = self.next_is_punc(':');
        let ghost m0 = self.tokens;
        proof {
            assert forall|t: Token, u: Token, w: Token, v: Token| #[trigger]
                path_step_next(a, t, u, w, v) implies m0.current is Some && m0.current->0.val@
                == TokenVal::Punc(':') && then_three(m0, m0.current->0, u, w, v) by {
                lemma_peek_then_three(a, m0, t, u, w, v);
            }
        }
        proof {
            reveal_strlit("<");
            lemma_peeked(a, self.tokens);
            if exists|t: Token| #[trigger] next_token(a, t) && t.val@ != TokenVal::Punc(':') && t.val@ != TokenVal::Op("<"@) {
                let t = choose|t: Token| #[trigger] next_token(a, t) && t.val@ != TokenVal::Punc(':') && t.val@ != TokenVal::Op("<"@);
                lemma_next_or_none(a, t);
                lemma_next_token_unique(a, a, t, self.tokens.current->0);
            }
        }
        assert(colon ==> !(exists|t: Token|
            #[trigger] next_token(a, t) && t.val@ != TokenVal::Punc(':') && t.val@ != TokenVal::Op("<"@)));
        if !colon {
            let r = start.range;
            let typings = if self.next_is_op("<") {
                if !allow_typings {
                    return Err(err1(DiagnosticId::Unexpected, self.tokens.range_here(), "typings"));
                }
                self.bump();
                match self.parse_typing_list(false, false, TokenType::Op(to_owned_string(">"))) {
                    Ok(l) => Some(l),
                    Err(e) => return Err(e),
                }
            } else {
                None
            };
            return Ok(ASTModAccessValues::Var(ASTVarTyping { value: start, range: r, typings }));
        }
        let mut path: Vec<ASTVar> = vec![start];
        let start_loc = self.tokens.input.loc();
        let ghost mut k: int = 0;
        loop
            invariant_except_break
                forall|t: Token, u: Token, w: Token, v: Token| #[trigger]
                    path_step_next(a, t, u, w, v) ==> k <= 1 && (k == 0 ==> self.tokens == m0
                        && path@.len() == 1) && (k == 1 ==> path@.len() == 2 && path@[1].value@
                        == w.val@->Var_0 && path@[1].range == w.range && next_token(self.tokens, v)),
            invariant
                parsed(*old(self), *self),
                self.parsed_main == old(self).parsed_main,
                path@.len() >= 1,
                path@[0] == start,
                !(exists|t: Token|
                    #[trigger] next_token(old(self).tokens, t) && t.val@ != TokenVal::Punc(':') && t.val@ != TokenVal::Op("<"@)),
                a == old(self).tokens,
                0 <= k,
                forall|t: Token, u: Token, w: Token, v: Token| #[trigger]
                    path_step_next(a, t, u, w, v) ==> m0.current is Some && m0.current->0.val@
                        == TokenVal::Punc(':') && then_three(
                        m0,
                        m0.current->0,
                        u,
                        w,
                        v,
                    ),
            ensures
                forall|t: Token, u: Token, w: Token, v: Token| #[trigger]
                    path_step_next(a, t, u, w, v) ==> path@.len() == 2 && path@[1].value@
                        == w.val@->Var_0 && path@[1].range == w.range && self.tokens.current is Some
                        && self.tokens.current->0.val@ == v.val@,
            decreases left(*self),
        {
            let ghost h = self.tokens;
            let more = self.next_is_punc(':');
            proof {
                assert forall|t: Token, u: Token, w: Token, v: Token| #[trigger]
                    path_step_next(a, t, u, w, v) && k == 1 implies self.tokens.current is Some
                    && self.tokens.current->0.val@ == v.val@ by {
                    lemma_peek_finds(h, self.tokens, v);
                }
            }
            if !more {
                break;
            }
            let ghost before = *self;
            self.bump();
            let ghost m1 = self.tokens;
            proof {
                assert forall|t: Token, u: Token, w: Token, v: Token| #[trigger]
                    path_step_next(a, t, u, w, v) implies then_two(m1, u, w, v) && next_token(m1, u) by {
                    lemma_then_three_take(m0, m1, m0.current->0, m0.current->0, u, w, v);
                    lemma_then_two_first(m1, u, w, v);
                    let c = choose|c: Tokenizer| #[trigger] taken(m1, c, u) && next_token(c, w);
                    lemma_taken_unique(m1, m1, c, c, u, u);
                }
            }
            let help = err1_help(
                DiagnosticId::Expected,
                self.tokens.range_here(),
                "Another colon (:)",
                "Add another colon to make the mod access expression (Module::Item)",
            );
            match self.expect(TokenType::Punc(':'), Some(help)) {
                Ok(_) => {},
                Err(e) => return Err(e),
            }
            let ghost m2 = self.tokens;
            proof {
                assert forall|t: Token, u: Token, w: Token, v: Token| #[trigger]
                    path_step_next(a, t, u, w, v) implies then_token(m2, w, v) && next_token(m2, w) by {
                    let x = choose|x: Token| x.val@ == TokenVal::Punc(':') && #[trigger] taken(m1, m2, x);
                    lemma_then_two_step(m1, m2, x, u, w, v);
                    let c = choose|c: Tokenizer| #[trigger] taken(m2, c, w) && next_token(c, v);
                    lemma_taken_unique(m2, m2, c, c, w, w);
                }
            }
            let got = self.tokens.consume();
            proof {
                if got is None {
                    assert(lex_read(m2, self.tokens, None));
                    assert forall|t: Token, u: Token, w: Token, v: Token| #[trigger]
                        path_step_next(a, t, u, w, v) implies false by {
                        lemma_next_or_none(m2, w);
                    }
                } else {
                    let tok = got->0;
                    assert forall|t: Token, u: Token, w: Token, v: Token| #[trigger]
                        path_step_next(a, t, u, w, v) implies tok.val@ == w.val@ && tok.range == w.range
                        && next_token(self.tokens, v) by {
                        let b = choose|b: Tokenizer| #[trigger] taken(m2, b, w) && next_token(b, v);
                        lemma_taken_unique(m2, m2, self.tokens, b, tok, w);
                        lemma_reading_next(b, self.tokens, v);
                    }
                }
                k = k + 1;
            }
            match got {
                Some(tok) => {
                    let trange = tok.range;
                    match tok.val {
                        TokenType::Var(v) => path.push(ASTVar { value: v, range: trange }),
                        TokenType::Kw(v) => path.push(ASTVar { value: v, range: trange }),
                        _ => {
                            if !allow_exp_end {
                                return Err(
                                    err1(DiagnosticId::Unexpected, self.tokens.range_here(), "expression"),
                                );
                            }
                            break;
                        },
                    }
                },
                None => {},
            }
        }
        let typings = if self.next_is_op("<") {
            if !allow_typings {
                return Err(err1(DiagnosticId::Unexpected, self.tokens.range_here(), "typings"));
            }
            self.bump();
            match self.parse_typing_list(false, false, TokenType::Op(to_owned_string(">"))) {
                Ok(l) => Some(l),
                Err(e) => return Err(e),
            }
        } else {
            None
        };
        let init = if self.next_is_punc('(') {
            if !allow_exp_end {
                return Err(err1(DiagnosticId::Unexpected, self.tokens.range_here(), "initializer"));
            }
            self.bump();
            match self.parse_expression_list(')') {
                Ok(l) => Some(l),
                Err(e) => return Err(e),
            }
        } else {
            None
        };
        Ok(
            ASTModAccessValues::ModAccess(
                ASTModAccess { path, range: start_loc.end(&self.tokens.last_loc), typings, init },
            ),
        )
    }
}


impl Parser {
    /// Reads the typing of a field after its `:`, then a default
    /// `= value` (with `allow_default`) and the `,` after the field, if one
    /// follows: the field `name`, with `modifiers`, spread when `spread`.
    fn parse_typed_field(
        &mut self,
        name: String,
        modifiers: ASTModifiers,
        spread: bool,
        allow_fn_keyword: bool,
        allow_default: bool,
    ) -> (r: LazyResult<ASTPairTypingItem>)
        requires
            parser_ok(*old(self)),
        ensures
            parsed(*old(self), *final(self)),
            final(self).parsed_main == old(self).parsed_main,
            r matches Ok(p) ==> p.name == name && p.modifiers == modifiers && p.spread == spread && p.value is Some,
            forall|t: Token, u: Token|
                #[trigger] then_token(old(self).tokens, t, u) && t.val@ is Var && ends_typing(u.val@) && u.val@
                    != TokenVal::Op("="@) && u.val@ != TokenVal::Punc(',') ==> (r matches Ok(p) && (p.value matches Some(
                    ASTTypings::Var(v),
                ) && v.value.value@ == t.val@->Var_0 && v.value.range == t.range && v.typings is None)
                    && p.default_value is None && final(self).tokens.current is Some
                    && final(self).tokens.current->0.val@ == u.val@),
        decreases left(*old(self)), 8nat,
    {
        let exp = match self.parse_typing(allow_fn_keyword, true, true) {
            Ok(e) => e,
            Err(e) => return Err(e),
        };
        let default_value = if self.next_is_op("=") {
            if !allow_default {
                return Err(
                    err1(
                        DiagnosticId::Disallowed,
                        Range { start: self.tokens.last_loc, end: self.tokens.input.loc() },
                        "default parameter",
                    ),
                );
            }
            self.bump();
            match self.parse_expression() {
                Ok(Some(exp)) => Some(exp),
                Ok(None) => {
                    return Err(err1(DiagnosticId::Expected, self.tokens.range_here(), "expression"));
                },
                Err(e) => return Err(e),
            }
        } else {
            None
        };
        let item = ASTPairTypingItem { name, value: Some(exp), default_value, modifiers, spread };
        if self.next_is_punc(',') {
            self.bump();
        }
        Ok(item)
    }

    /// Reads typed fields or parameters up to `closing_punc`: each a name,
    /// optionally after `...` (with `allow_spread`) and modifiers (with
    /// `allow_modifiers`), then `: typing`, a default `= value` (with
    /// `allow_default`), or nothing (with `allow_without_val`).
    #[verifier::rlimit(100)]
    fn parse_typing_pair_list(
        &mut self,
        allow_without_val: bool,
        allow_fn_keyword: bool,
        allow_spread: bool,
        allow_modifiers: bool,
        allow_default: bool,
        closing_punc: char,
    ) -> (r: LazyResult<ASTPairListTyping>)
        requires
            parser_ok(*old(self)),
        ensures
            parsed(*old(self), *final(self)),
            final(self).parsed_main == old(self).parsed_main,
            r is Ok ==> left(*final(self)) < left(*old(self)),
            (exists|t: Token| #[trigger]
                next_token(old(self).tokens, t) && t.val@ == TokenVal::Punc(closing_punc))
                ==> (r matches Ok(l) && l.pairs@.len() == 0),
            forall|t: Token, w: Token|
                #[trigger] then_token(old(self).tokens, t, w) && t.val@ == TokenVal::Punc(closing_punc)
                    ==> next_token(final(self).tokens, w),
            has_one_field(old(self).tokens, closing_punc) ==> (r matches Ok(l) && l.pairs@.len() == 1
                && field_read(
                l.pairs@[0],
                field_tokens(old(self).tokens, closing_punc).0,
                field_tokens(old(self).tokens, closing_punc).2,
            )),
        decreases left(*old(self)), 5nat,
    {
        let range = self.tokens.input.loc();
        let mut res: Vec<ASTPairTypingItem> = Vec::new();
        let mut has_consumed_bracket = false;
        let mut modifiers = ASTModifiers::empty();
        let ghost mut first = true;
        let ghost (gn, gc, gty, gz) = field_tokens(old(self).tokens, closing_punc);
        proof {
            assert forall|t: Token, w: Token| #[trigger]
                then_token(old(self).tokens, t, w) implies next_token(old(self).tokens, t) by {
                let b = choose|b: Tokenizer| #[trigger] taken(old(self).tokens, b, t) && next_token(b, w);
                lemma_taken_unique(old(self).tokens, old(self).tokens, b, b, t, t);
            }
        }
        while !self.next_is_punc(closing_punc)
            invariant_except_break
                !has_consumed_bracket,
                first ==> self.tokens == old(self).tokens && res@.len() == 0,
            invariant
                first ==> modifiers.bits == 0,
                has_one_field(old(self).tokens, closing_punc) ==> one_field(old(self).tokens, gn, gc, gty, gz, closing_punc),
                has_one_field(old(self).tokens, closing_punc) && !first ==> res@.len() == 1 && field_read(res@[0], gn, gty)
                    && self.tokens.current is Some && self.tokens.current->0.val@ == gz.val@
                    && !has_consumed_bracket,
                forall|t: Token, w: Token| #[trigger]
                    then_token(old(self).tokens, t, w) ==> next_token(old(self).tokens, t),
                parsed(*old(self), *self),
                (exists|t: Token| #[trigger]
                    next_token(old(self).tokens, t) && t.val@ == TokenVal::Punc(closing_punc))
                    ==> first,
                self.parsed_main == old(self).parsed_main,
            ensures
                has_consumed_bracket ==> left(*self) < left(*old(self)),
                first ==> peeked(old(self).tokens, self.tokens) && res@.len() == 0
                    && !has_consumed_bracket,
                first ==> self.tokens.current is None || self.tokens.current->0.val@ == TokenVal::Punc(
                    closing_punc,
                ),
            decreases left(*self),
        {
            assert(has_one_field(old(self).tokens, closing_punc) ==> first);
            let ghost r0 = first && has_one_field(old(self).tokens, closing_punc);
            let ghost m = self.tokens;
            proof {
                if first {
                    assert forall|t: Token| #[trigger]
                        next_token(old(self).tokens, t) implies t.val@ != TokenVal::Punc(closing_punc) by {
                        lemma_peek_finds(old(self).tokens, self.tokens, t);
                    }
                }
                assert(first && has_one_field(old(self).tokens, closing_punc) ==> m.current is Some && m.current->0.val@ == gn.val@
                    && then_three(m, m.current->0, gc, gty, gz)) by {
                    if first && has_one_field(old(self).tokens, closing_punc) {
                        lemma_peek_then_three(old(self).tokens, self.tokens, gn, gc, gty, gz);
                    }
                }
                first = false;
            }
            let tok_range = self.tokens.input.loc();
            let is_spread = if self.next_is_op("...") {
                proof {
                    assert(!r0);
                }
                self.bump();
                if !allow_spread {
                    return Err(
                        err1(
                            DiagnosticId::Disallowed,
                            tok_range.end(&self.tokens.last_loc),
                            "spread operator",
                        ),
                    );
                }
                true
            } else {
                false
            };
            if allow_modifiers {
                let next = self.peek_val();
                if let Some((TokenType::Kw(kw), mod_range)) = next {
                    let which = if str_eq(kw.as_str(), "const") {
                        Some((ASTModifiers::const_mod(), "const"))
                    } else if str_eq(kw.as_str(), "static") {
                        Some((ASTModifiers::static_mod(), "static"))
                    } else if str_eq(kw.as_str(), "private") {
                        Some((ASTModifiers::private(), "private"))
                    } else {
                        None
                    };
                    if let Some((m, name)) = which {
                        proof {
                            assert(!r0);
                        }
                        self.bump();
                        if modifiers.contains(m) {
                            return Err(
                                err1(
                                    DiagnosticId::AlreadyHasModifier,
                                    mod_range.end_with(&self.tokens.last_loc),
                                    name,
                                ),
                            );
                        }
                        modifiers.insert(m);
                        continue;
                    }
                }
            }
            let ghost m2 = self.tokens;
            let vr = self.parse_varname(false, false, false, true);
            let ghost m3 = self.tokens;
            proof {
                assert(r0 ==> (vr matches Ok(k) && k.0.value@ == gn.val@->Var_0) && m3.current is Some
                    && m3.current->0.val@ == gc.val@ && then_two(m3, m3.current->0, gty, gz)) by {
                    if r0 {
                        assert(m2 == m);
                        assert(with_num_mode(m2, false) == m2);
                        assert(next_token(m2, m2.current->0));
                        assert(vr is Ok);
                        let (b, t) = choose|b: Tokenizer, t: Token|
                            #[trigger] taken(with_num_mode(m2, false), b, t) && name_of(t.val@, false, true)
                                == Some(vr->Ok_0.0.value@) && peeked(with_num_mode(b, false), m3);
                        lemma_then_three_take(m2, b, t, m2.current->0, gc, gty, gz);
                        assert(with_num_mode(b, false) == b);
                        lemma_peek_then_two(b, m3, gc, gty, gz);
                        assert(vr->Ok_0.0.value@ == gn.val@->Var_0);
                    }
                }
            }
            let key = match vr {
                Ok(k) => k.0,
                Err(e) => return Err(e),
            };
            if self.next_is_op("=") {
                proof {
                    assert(!r0);
                }
                if !allow_default {
                    return Err(
                        err1(DiagnosticId::Disallowed, self.tokens.range_here(), "default parameter"),
                    );
                }
                self.bump();
                let default_value = match self.parse_expression() {
                    Ok(Some(exp)) => Some(exp),
                    Ok(None) => {
                        return Err(err1(DiagnosticId::Expected, self.tokens.range_here(), "expression"));
                    },
                    Err(e) => return Err(e),
                };
                res.push(
                    ASTPairTypingItem {
                        name: key.value,
                        value: None,
                        default_value,
                        modifiers,
                        spread: is_spread,
                    },
                );
                modifiers.clear();
                if self.next_is_punc(',') {
                    self.bump();
                }
                continue;
            }
            let puncs = [',', ':', closing_punc];
            let ghost m4 = self.tokens;
            let pr = self.tokens.expect_punc(&puncs, None);
            let ghost m5 = self.tokens;
            proof {
                assert(r0 ==> pr == Ok::<char, BaseError>(':') && then_token(m5, gty, gz)) by {
                    if r0 {
                        assert(m4 == m3);
                        assert(puncs@[1] == ':');
                        assert(puncs@.contains(':'));
                        assert(pr is Ok);
                        let x = choose|x: Token| x.val@ == TokenVal::Punc(pr->Ok_0) && #[trigger] taken(m4, m5, x);
                        lemma_then_two_take(m4, m5, x, m4.current->0, gty, gz);
                        assert(pr->Ok_0 == ':');
                    }
                }
            }
            let p = match pr {
                Ok(p) => p,
                Err(e) => return Err(e),
            };
            if p == ',' {
                proof {
                    assert(!r0);
                }
                if !allow_without_val {
                    return Err(
                        err1(DiagnosticId::Expected, tok_range.end(&self.tokens.last_loc), "type"),
                    );
                }
                res.push(
                    ASTPairTypingItem {
                        name: key.value,
                        value: None,
                        default_value: None,
                        modifiers,
                        spread: is_spread,
                    },
                );
                modifiers.clear();
            } else if p == ':' {
                let fr = self.parse_typed_field(key.value, modifiers, is_spread, allow_fn_keyword, allow_default);
                proof {
                    assert(r0 ==> (fr matches Ok(q) && field_read(q, gn, gty)) && self.tokens.current is Some
                        && self.tokens.current->0.val@ == gz.val@) by {
                        if r0 {
                            assert(then_token(m5, gty, gz));
                        }
                    }
                }
                let item = match fr {
                    Ok(q) => q,
                    Err(e) => return Err(e),
                };
                res.push(item);
                modifiers.clear();
            } else if p == closing_punc {
                proof {
                    assert(!r0);
                }
                if !allow_without_val {
                    return Err(
                        err1(DiagnosticId::Expected, tok_range.end(&self.tokens.last_loc), "type"),
                    );
                }
                has_consumed_bracket = true;
                res.push(
                    ASTPairTypingItem {
                        name: key.value,
                        value: None,
                        default_value: None,
                        modifiers,
                        spread: is_spread,
                    },
                );
                modifiers.clear();
                break;
            }
        }
        proof {
            if self.tokens.current is Some {
                assert(next_token(self.tokens, self.tokens.current->0));
            }
            if exists|t: Token| #[trigger]
                next_token(old(self).tokens, t) && t.val@ == TokenVal::Punc(closing_punc) {
                let t = choose|t: Token| #[trigger]
                    next_token(old(self).tokens, t) && t.val@ == TokenVal::Punc(closing_punc);
                lemma_peek_finds(old(self).tokens, self.tokens, t);
            }
        }
        let ghost f = self.tokens;
        proof {
            assert forall|t: Token, w: Token| #[trigger]
                then_token(old(self).tokens, t, w) && t.val@ == TokenVal::Punc(
                    closing_punc,
                ) implies first && then_token(f, f.current->0, w) && f.current is Some by {
                let b = choose|b: Tokenizer| #[trigger] taken(old(self).tokens, b, t) && next_token(b, w);
                lemma_taken_unique(old(self).tokens, old(self).tokens, b, b, t, t);
                lemma_peek_then(old(self).tokens, f, t, w);
            }
        }
        if !has_consumed_bracket {
            match self.expect(TokenType::Punc(closing_punc), None) {
                Ok(_) => {},
                Err(e) => return Err(e),
            }
        }
        proof {
            assert forall|t: Token, w: Token| #[trigger]
                then_token(old(self).tokens, t, w) && t.val@ == TokenVal::Punc(
                    closing_punc,
                ) implies next_token(self.tokens, w) by {
                let x = choose|x: Token| x.val@ == TokenVal::Punc(closing_punc) && #[trigger] taken(
                    f,
                    self.tokens,
                    x,
                );
                lemma_then_take(f, self.tokens, x, f.current->0, w);
            }
        }
        let out = ASTPairListTyping { range: range.end(&self.tokens.last_loc), pairs: res };
        Ok(out)
    }

    /// Reads a function after `fn`: generic parameters, parameters, a return
    /// type after `->`, and a body expression when `allow_body`.
    fn parse_function(&mut self, allow_body: bool) -> (r: LazyResult<ASTFunction>)
        requires
            parser_ok(*old(self)),
        ensures
            parsed(*old(self), *final(self)),
            final(self).parsed_main == old(self).parsed_main,
            r is Ok ==> left(*final(self)) < left(*old(self)),
            forall|t: Token, u: Token, w: Token|
                #[trigger] then_two(old(self).tokens, t, u, w) && t.val@ == TokenVal::Punc('(')
                    && u.val@ == TokenVal::Punc(')') && w.val@ != TokenVal::Op("->"@) && !allow_body
                    ==> (r matches Ok(f) && f.typings is None && f.params.pairs@.len() == 0
                    && f.return_type is None && f.body is None),
        decreases left(*old(self)), 6nat,
    {
        let ghost good = exists|t: Token, u: Token, w: Token|
            #[trigger] then_two(old(self).tokens, t, u, w) && t.val@ == TokenVal::Punc('(') && u.val@
                == TokenVal::Punc(')') && w.val@ != TokenVal::Op("->"@);
        let ghost (t0, u0, w0) = choose|t: Token, u: Token, w: Token|
            #[trigger] then_two(old(self).tokens, t, u, w) && t.val@ == TokenVal::Punc('(') && u.val@
                == TokenVal::Punc(')') && w.val@ != TokenVal::Op("->"@);
        proof {
            if good {
                assert forall|f: Tokenizer| #[trigger]
                    peeked(old(self).tokens, f) implies f.current is Some && f.current->0.val@
                    == TokenVal::Punc('(') && then_two(f, f.current->0, u0, w0) by {
                    lemma_peek_then_two(old(self).tokens, f, t0, u0, w0);
                }
            }
        }
        let range = self.tokens.input.loc();
        let typings = if self.next_is_op("<") {
            self.bump();
            match self.parse_typing_list(true, false, TokenType::Op(to_owned_string(">"))) {
                Ok(l) => Some(l),
                Err(e) => return Err(e),
            }
        } else {
            None
        };
        let e = err1(DiagnosticId::Expected, self.tokens.range_here(), "start of function parameters");
        let ghost m0 = self.tokens;
        proof {
            if good {
                assert(next_token(m0, m0.current->0));
            }
        }
        match self.expect(TokenType::Punc('('), Some(e)) {
            Ok(_) => {},
            Err(e) => return Err(e),
        }
        proof {
            if good {
                let x = choose|x: Token| x.val@ == TokenVal::Punc('(') && #[trigger] taken(
                    m0,
                    self.tokens,
                    x,
                );
                lemma_then_two_take(m0, self.tokens, x, m0.current->0, u0, w0);
            }
        }
        let params = match self.parse_typing_pair_list(true, false, true, false, true, ')') {
            Ok(l) => l,
            Err(e) => return Err(e),
        };
        proof {
            if good {
                assert forall|f: Tokenizer| #[trigger]
                    peeked(self.tokens, f) implies f.current is Some && f.current->0.val@ == w0.val@ by {
                    lemma_peek_finds(self.tokens, f, w0);
                }
            }
        }
        let return_type = if self.next_is_op("->") {
            self.bump();
            match self.parse_typing(false, true, true) {
                Ok(ty) => Some(Box::new(ty)),
                Err(e) => return Err(e),
            }
        } else {
            None
        };
        let body = if allow_body {
            match self.parse_expression() {
                Ok(Some(e)) => Some(Box::new(e)),
                Ok(None) => {
                    return Err(err1(DiagnosticId::Expected, self.tokens.range_here(), "expression"));
                },
                Err(e) => return Err(e),
            }
        } else {
            None
        };
        Ok(
            ASTFunction {
                range: range.end(&self.tokens.last_loc),
                params: Box::new(params),
                typings,
                return_type,
                body,
            },
        )
    }

    /// Reads `key: value` pairs up to `closing_punc` (a bare key when
    /// `allow_without_val`).
    fn parse_pair_list(&mut self, allow_without_val: bool, closing_punc: char) -> (r: LazyResult<ASTPairList>)
        requires
            parser_ok(*old(self)),
        ensures
            parsed(*old(self), *final(self)),
            final(self).parsed_main == old(self).parsed_main,
            r is Ok ==> left(*final(self)) < left(*old(self)),
            (exists|t: Token| #[trigger]
                next_token(old(self).tokens, t) && t.val@ == TokenVal::Punc(closing_punc))
                ==> (r matches Ok(l) && l.pairs@.len() == 0),
        decreases left(*old(self)), 8nat,
    {
        let range = self.tokens.input.loc();
        let mut res: Vec<(String, Option<ASTExpression>)> = Vec::new();
        let mut has_consumed_bracket = false;
        let ghost mut first = true;
        while !self.next_is_punc(closing_punc)
            invariant_except_break
                !has_consumed_bracket,
                first ==> self.tokens == old(self).tokens && res@.len() == 0,
            invariant
                parsed(*old(self), *self),
                (exists|t: Token| #[trigger]
                    next_token(old(self).tokens, t) && t.val@ == TokenVal::Punc(closing_punc))
                    ==> first,
                self.parsed_main == old(self).parsed_main,
            ensures
                has_consumed_bracket ==> left(*self) < left(*old(self)),
                first ==> peeked(old(self).tokens, self.tokens) && res@.len() == 0,
            decreases left(*self),
        {
            proof {
                if first {
                    assert forall|t: Token| #[trigger]
                        next_token(old(self).tokens, t) implies t.val@ != TokenVal::Punc(closing_punc) by {
                        lemma_peek_finds(old(self).tokens, self.tokens, t);
                    }
                }
                first = false;
            }
            let tok_start = self.tokens.input.loc();
            let key = match self.parse_varname(false, false, false, true) {
                Ok(k) => k.0,
                Err(e) => return Err(e),
            };
            let puncs = [',', ':', closing_punc];
            let here = tok_start.end(&self.tokens.last_loc);
            let p = match self.tokens.expect_punc(&puncs, Some(here)) {
                Ok(p) => p,
                Err(e) => return Err(e),
            };
            if p == ',' {
                if !allow_without_val {
                    return Err(
                        err1(DiagnosticId::Expected, tok_start.end(&self.tokens.last_loc), "value"),
                    );
                }
                res.push((key.value, None));
            } else if p == ':' {
                let exp = match self.parse_expression() {
                    Ok(Some(exp)) => Some(exp),
                    Ok(None) => {
                        return Err(
                            err1(
                                DiagnosticId::Expected,
                                tok_start.end(&self.tokens.last_loc),
                                "expression",
                            ),
                        );
                    },
                    Err(e) => return Err(e),
                };
                res.push((key.value, exp));
            } else if p == closing_punc {
                if !allow_without_val {
                    return Err(
                        err1(DiagnosticId::Expected, tok_start.end(&self.tokens.last_loc), "typing"),
                    );
                }
                has_consumed_bracket = true;
                res.push((key.value, None));
                break;
            }
            if self.next_is_punc(',') {
                self.bump();
            }
        }
        proof {
            if self.tokens.current is Some {
                assert(next_token(self.tokens, self.tokens.current->0));
            }
            if exists|t: Token| #[trigger]
                next_token(old(self).tokens, t) && t.val@ == TokenVal::Punc(closing_punc) {
                let t = choose|t: Token| #[trigger]
                    next_token(old(self).tokens, t) && t.val@ == TokenVal::Punc(closing_punc);
                lemma_peek_finds(old(self).tokens, self.tokens, t);
            }
        }
        if !has_consumed_bracket {
            match self.expect(TokenType::Punc(closing_punc), None) {
                Ok(_) => {},
                Err(e) => return Err(e),
            }
        }
        Ok(ASTPairList { range: range.end(&self.tokens.last_loc), pairs: res })
    }

    /// Reads expressions separated by commas up to `closing_punc`.
    fn parse_expression_list(&mut self, closing_punc: char) -> (r: LazyResult<ASTExpressionList>)
        requires
            parser_ok(*old(self)),
        ensures
            parsed(*old(self), *final(self)),
            final(self).parsed_main == old(self).parsed_main,
            r is Ok ==> left(*final(self)) < left(*old(self)),
            (exists|t: Token| #[trigger]
                next_token(old(self).tokens, t) && t.val@ == TokenVal::Punc(closing_punc))
                ==> (r matches Ok(l) && l.expressions@.len() == 0),
            forall|t: Token, w: Token|
                #[trigger] then_token(old(self).tokens, t, w) && t.val@ == TokenVal::Punc(closing_punc)
                    ==> next_token(final(self).tokens, w),
            forall|t: Token, u: Token, w: Token|
                #[trigger] then_two(old(self).tokens, t, u, w) && is_literal(t.val@) && u.val@ == TokenVal::Punc(
                    closing_punc,
                ) && !starts_suffix(u.val@) ==> (r matches Ok(l) && l.expressions@.len() == 1
                    && literal_expr(l.expressions@[0], t) && next_token(final(self).tokens, w)),
        decreases left(*old(self)), 8nat,
    {
        let range = self.tokens.input.loc();
        let mut expressions: Vec<ASTExpression> = Vec::new();
        let mut is_first = true;
        proof {
            assert forall|t: Token, w: Token| #[trigger]
                then_token(old(self).tokens, t, w) implies next_token(old(self).tokens, t) by {
                let b = choose|b: Tokenizer| #[trigger] taken(old(self).tokens, b, t) && next_token(b, w);
                lemma_taken_unique(old(self).tokens, old(self).tokens, b, b, t, t);
            }
        }
        while !self.next_is_punc(closing_punc)
            invariant
                forall|t: Token, w: Token| #[trigger]
                    then_token(old(self).tokens, t, w) ==> next_token(old(self).tokens, t),
                parsed(*old(self), *self),
                self.parsed_main == old(self).parsed_main,
                is_first ==> self.tokens == old(self).tokens && expressions@.len() == 0,
                forall|t: Token, u: Token, w: Token|
                    #[trigger] then_two(old(self).tokens, t, u, w) && is_literal(t.val@) && u.val@
                        == TokenVal::Punc(closing_punc) && !starts_suffix(u.val@) && !is_first
                        ==> expressions@.len() == 1 && literal_expr(expressions@[0], t)
                        && self.tokens.current is Some && self.tokens.current->0.val@ == u.val@
                        && then_token(self.tokens, self.tokens.current->0, w),
                (exists|t: Token| #[trigger]
                    next_token(old(self).tokens, t) && t.val@ == TokenVal::Punc(closing_punc))
                    ==> is_first,
            decreases left(*self),
        {
            proof {
                if is_first {
                    assert forall|t: Token| #[trigger]
                        next_token(old(self).tokens, t) implies t.val@ != TokenVal::Punc(
                        closing_punc,
                    ) by {
                        lemma_peek_finds(old(self).tokens, self.tokens, t);
                    }
                }
            }
            if !is_first {
                match self.expect(TokenType::Punc(','), None) {
                    Ok(_) => {},
                    Err(e) => return Err(e),
                }
            }
            let ghost m = self.tokens;
            let ghost first_round = is_first;
            proof {
                if is_first {
                    assert forall|t: Token, u: Token, w: Token| #[trigger]
                        then_two(old(self).tokens, t, u, w) implies m.current is Some
                        && m.current->0.val@ == t.val@ && m.current->0.range == t.range
                        && then_two(m, m.current->0, u, w) && then_token(m, m.current->0, u) by {
                        lemma_peek_then_two(old(self).tokens, m, t, u, w);
                        lemma_then_two_first(m, m.current->0, u, w);
                    }
                }
            }
            let exp = match self.parse_expression() {
                Ok(Some(exp)) => exp,
                Ok(None) => {
                    return Err(err1(DiagnosticId::Expected, self.tokens.range_here(), "expression"));
                },
                Err(e) => return Err(e),
            };
            let ghost before = expressions@;
            expressions.push(exp);
            proof {
                if first_round {
                    assert forall|t: Token, u: Token, w: Token| #[trigger]
                        then_two(old(self).tokens, t, u, w) && is_literal(t.val@) && u.val@
                            == TokenVal::Punc(closing_punc) && !starts_suffix(u.val@)
                        implies expressions@.len() == 1 && literal_expr(expressions@[0], t)
                        && self.tokens.current is Some && self.tokens.current->0.val@ == u.val@
                        && then_token(self.tokens, self.tokens.current->0, w) by {
                        assert(then_two(m, m.current->0, u, w));
                        assert(then_token(m, m.current->0, u));
                    }
                }
            }
            is_first = false;
        }
        proof {
            if is_first {
                assert forall|t: Token, u: Token, w: Token| #[trigger]
                    then_two(old(self).tokens, t, u, w) implies !is_literal(t.val@) by {
                    lemma_peek_then_two(old(self).tokens, self.tokens, t, u, w);
                }
            }
            if self.tokens.current is Some {
                assert(next_token(self.tokens, self.tokens.current->0));
            }
            if exists|t: Token| #[trigger]
                next_token(old(self).tokens, t) && t.val@ == TokenVal::Punc(closing_punc) {
                let t = choose|t: Token| #[trigger]
                    next_token(old(self).tokens, t) && t.val@ == TokenVal::Punc(closing_punc);
                lemma_peek_finds(old(self).tokens, self.tokens, t);
            }
        }
        let ghost f = self.tokens;
        proof {
            assert forall|t: Token, w: Token| #[trigger]
                then_token(old(self).tokens, t, w) && t.val@ == TokenVal::Punc(
                    closing_punc,
                ) implies then_token(f, f.current->0, w) && f.current is Some by {
                let b = choose|b: Tokenizer| #[trigger] taken(old(self).tokens, b, t) && next_token(b, w);
                lemma_taken_unique(old(self).tokens, old(self).tokens, b, b, t, t);
                lemma_peek_then(old(self).tokens, f, t, w);
            }
        }
        match self.expect(TokenType::Punc(closing_punc), None) {
            Ok(_) => {},
            Err(e) => return Err(e),
        }
        proof {
            assert forall|t: Token, w: Token| #[trigger]
                then_token(old(self).tokens, t, w) && t.val@ == TokenVal::Punc(
                    closing_punc,
                ) implies next_token(self.tokens, w) by {
                let x = choose|x: Token| x.val@ == TokenVal::Punc(closing_punc) && #[trigger] taken(
                    f,
                    self.tokens,
                    x,
                );
                lemma_then_take(f, self.tokens, x, f.current->0, w);
            }
            assert forall|t: Token, u: Token, w: Token| #[trigger]
                then_two(old(self).tokens, t, u, w) && is_literal(t.val@) && u.val@ == TokenVal::Punc(
                    closing_punc,
                ) && !starts_suffix(u.val@) implies next_token(self.tokens, w) by {
                assert(then_token(f, f.current->0, w));
                let x = choose|x: Token| x.val@ == TokenVal::Punc(closing_punc) && #[trigger] taken(
                    f,
                    self.tokens,
                    x,
                );
                lemma_then_take(f, self.tokens, x, f.current->0, w);
            }
        }
        Ok(ASTExpressionList { expressions, range: range.end(&self.tokens.last_loc) })
    }

    /// Reads names separated by commas up to `closing_punc`.
    fn parse_varname_list(&mut self, closing_punc: char) -> (r: LazyResult<ASTVarList>)
        requires
            parser_ok(*old(self)),
        ensures
            parsed(*old(self), *final(self)),
            final(self).parsed_main == old(self).parsed_main,
            r is Ok ==> left(*final(self)) < left(*old(self)),
            (exists|t: Token| #[trigger]
                next_token(old(self).tokens, t) && t.val@ == TokenVal::Punc(closing_punc))
                ==> (r matches Ok(l) && l.values@.len() == 0),
        decreases left(*old(self)), 5nat,
    {
        let range = self.tokens.input.loc();
        let mut values: Vec<ASTVar> = Vec::new();
        let mut is_first = true;
        while !self.next_is_punc(closing_punc)
            invariant
                parsed(*old(self), *self),
                self.parsed_main == old(self).parsed_main,
                is_first ==> self.tokens == old(self).tokens && values@.len() == 0,
                (exists|t: Token| #[trigger]
                    next_token(old(self).tokens, t) && t.val@ == TokenVal::Punc(closing_punc))
                    ==> is_first,
            decreases left(*self),
        {
            proof {
                if is_first {
                    assert forall|t: Token| #[trigger]
                        next_token(old(self).tokens, t) implies t.val@ != TokenVal::Punc(
                        closing_punc,
                    ) by {
                        lemma_peek_finds(old(self).tokens, self.tokens, t);
                    }
                }
            }
            if !is_first {
                match self.expect(TokenType::Punc(','), None) {
                    Ok(_) => {},
                    Err(e) => return Err(e),
                }
            }
            let v = match self.parse_varname(false, false, false, true) {
                Ok(v) => v.0,
                Err(e) => return Err(e),
            };
            values.push(v);
            is_first = false;
        }
        proof {
            if self.tokens.current is Some {
                assert(next_token(self.tokens, self.tokens.current->0));
            }
            if exists|t: Token| #[trigger]
                next_token(old(self).tokens, t) && t.val@ == TokenVal::Punc(closing_punc) {
                let t = choose|t: Token| #[trigger]
                    next_token(old(self).tokens, t) && t.val@ == TokenVal::Punc(closing_punc);
                lemma_peek_finds(old(self).tokens, self.tokens, t);
            }
        }
        match self.expect(TokenType::Punc(closing_punc), None) {
            Ok(_) => {},
            Err(e) => return Err(e),
        }
        Ok(ASTVarList { values, range: range.end(&self.tokens.last_loc) })
    }
}


impl Parser {
    /// Reads the expressions of a block up to `}`, each ended by `;` unless
    /// it ends in a block; with `allow_statement_as_exp`, `yield` is read too.
    fn parse_block(&mut self, allow_statement_as_exp: bool) -> (r: LazyResult<ASTBlock>)
        requires
            parser_ok(*old(self)),
        ensures
            parsed(*old(self), *final(self)),
            final(self).parsed_main == old(self).parsed_main,
            r is Ok ==> left(*final(self)) < left(*old(self)),
            r is Ok ==> final(self).is_last_block,
            (exists|t: Token| #[trigger]
                next_token(old(self).tokens, t) && t.val@ == TokenVal::Punc('}'))
                ==> (r matches Ok(b) && b.elements@.len() == 0),
        decreases left(*old(self)), 9nat,
    {
        let range = self.tokens.input.loc();
        let mut res: Vec<ASTExpression> = Vec::new();
        let ghost mut first = true;
        while !self.tokens.input.is_eof() && !self.next_is_punc('}')
            invariant
                parsed(*old(self), *self),
                self.parsed_main == old(self).parsed_main,
                first ==> self.tokens == old(self).tokens && res@.len() == 0,
                (exists|t: Token| #[trigger]
                    next_token(old(self).tokens, t) && t.val@ == TokenVal::Punc('}')) ==> first,
            decreases left(*self),
        {
            proof {
                if first {
                    assert forall|t: Token| #[trigger]
                        next_token(old(self).tokens, t) implies t.val@ != TokenVal::Punc('}') by {
                        lemma_peek_finds(old(self).tokens, self.tokens, t);
                    }
                }
                first = false;
            }
            let parsed_exp = if allow_statement_as_exp {
                self.parse_expression_or_expression_statement()
            } else {
                self.parse_expression()
            };
            let exp = match parsed_exp {
                Ok(Some(exp)) => exp,
                Ok(None) => {
                    continue;
                },
                Err(e) => return Err(e),
            };
            let erange = full_expression_range(&exp);
            res.push(exp);
            if !self.is_last_block {
                let e = err0(DiagnosticId::Semicolon, erange);
                match self.expect(TokenType::Punc(';'), Some(e)) {
                    Ok(_) => {},
                    Err(e) => return Err(e),
                }
            }
        }
        proof {
            if exists|t: Token| #[trigger]
                next_token(old(self).tokens, t) && t.val@ == TokenVal::Punc('}') {
                let t = choose|t: Token| #[trigger]
                    next_token(old(self).tokens, t) && t.val@ == TokenVal::Punc('}');
                if self.tokens == old(self).tokens {
                    assert(next_token(self.tokens, t));
                } else {
                    lemma_peek_finds(old(self).tokens, self.tokens, t);
                    assert(next_token(self.tokens, self.tokens.current->0));
                }
            }
        }
        let e = err0(DiagnosticId::EndOfBlock, range.end(&self.tokens.last_loc));
        match self.expect(TokenType::Punc('}'), Some(e)) {
            Ok(_) => {},
            Err(e) => return Err(e),
        }
        self.is_last_block = true;
        Ok(ASTBlock { elements: res, range: range.end(&self.tokens.last_loc) })
    }

    /// Reads binary operators after `left_tok` whose precedence is above
    /// `prec`, building the tree by precedence climbing.
    fn parse_binary(&mut self, left_tok: ASTExpression, prec: i8) -> (r: LazyResult<ASTExpression>)
        requires
            parser_ok(*old(self)),
        ensures
            parsed(*old(self), *final(self)),
            final(self).parsed_main == old(self).parsed_main,
            r matches Ok(e) ==> e == left_tok || (e matches ASTExpression::Binary(b) && precedence(
                b.op@,
            ) > prec),
            (forall|t: Token| #[trigger] next_token(old(self).tokens, t) ==> !binds_above(t.val@, prec))
                ==> r == Ok::<ASTExpression, BaseError>(left_tok) && peeked(
                old(self).tokens,
                final(self).tokens,
            ),
            forall|t: Token, u: Token, w: Token|
                #[trigger] then_two(old(self).tokens, t, u, w) && binds_above(t.val@, prec) && is_literal(
                    u.val@,
                ) && !starts_suffix(w.val@) && !binds_above(w.val@, prec) ==> (r matches Ok(
                    ASTExpression::Binary(b),
                ) && b.op@ == t.val@->Op_0 && *b.left == left_tok && literal_expr(*b.right, u)
                    && final(self).tokens.current is Some && final(self).tokens.current->0.val@ == w.val@),
            forall|t: Token, u: Token, v: Token, x: Token, w: Token|
                #[trigger] then_four(old(self).tokens, t, u, v, x, w) && binds_above(t.val@, prec)
                    && is_literal(u.val@) && binds_above(v.val@, prec) && !starts_suffix(v.val@)
                    && is_literal(x.val@) && !starts_suffix(w.val@) && !binds_above(w.val@, prec) ==> (
                r matches Ok(ASTExpression::Binary(b)) && if precedence(v.val@->Op_0) > precedence(
                    t.val@->Op_0,
                ) {
                    &&& b.op@ == t.val@->Op_0
                    &&& *b.left == left_tok
                    &&& *b.right matches ASTExpression::Binary(c)
                    &&& c.op@ == v.val@->Op_0
                    &&& literal_expr(*c.left, u)
                    &&& literal_expr(*c.right, x)
                } else {
                    &&& b.op@ == v.val@->Op_0
                    &&& literal_expr(*b.right, x)
                    &&& *b.left matches ASTExpression::Binary(c)
                    &&& c.op@ == t.val@->Op_0
                    &&& *c.left == left_tok
                    &&& literal_expr(*c.right, u)
                }),
        decreases left(*old(self)), 6nat,
    {
        let start = self.tokens.input.loc();
        let next = self.peek_val();
        let ghost m = self.tokens;
        proof {
            lemma_peeked(old(self).tokens, self.tokens);
            assert forall|t: Token, u: Token, w: Token| #[trigger]
                then_two(old(self).tokens, t, u, w) implies m.current is Some && m.current->0.val@
                == t.val@ && then_two(m, m.current->0, u, w) by {
                lemma_peek_then_two(old(self).tokens, m, t, u, w);
            }
            assert forall|t: Token, u: Token, v: Token, x: Token, w: Token| #[trigger]
                then_four(old(self).tokens, t, u, v, x, w) implies m.current is Some && m.current->0.val@
                == t.val@ && then_four(m, m.current->0, u, v, x, w) by {
                lemma_peek_then_four(old(self).tokens, m, t, u, v, x, w);
            }
        }
        match next {
            Some((TokenType::Op(val), _)) => {
                let other_prec = Self::get_prec(val.as_str());
                if other_prec == -1 {
                    return Ok(left_tok);
                }
                if other_prec > prec {
                    self.bump();
                    let ghost m1 = self.tokens;
                    proof {
                        assert forall|t: Token, u: Token, w: Token| #[trigger]
                            then_two(old(self).tokens, t, u, w) implies then_token(m1, u, w) by {
                            lemma_then_two_take(m, m1, m.current->0, m.current->0, u, w);
                        }
                        assert forall|t: Token, u: Token, v: Token, x: Token, w: Token| #[trigger]
                            then_four(old(self).tokens, t, u, v, x, w) implies then_three(m1, u, v, x, w)
                            && then_token(m1, u, v) by {
                            lemma_then_four_take(m, m1, m.current->0, m.current->0, u, v, x, w);
                            lemma_then_three_first(m1, u, v, x, w);
                        }
                    }
                    let exp = match self.parse_expression_part(false) {
                        Ok(Some(exp)) => exp,
                        Ok(None) => return Ok(left_tok),
                        Err(e) => return Err(e),
                    };
                    let ghost m2 = self.tokens;
                    let right = match self.parse_binary(exp, other_prec) {
                        Ok(r) => r,
                        Err(e) => return Err(e),
                    };
                    let ghost m3 = self.tokens;
                    proof {
                        assert forall|t: Token, u: Token, w: Token| #[trigger]
                            then_two(old(self).tokens, t, u, w) && binds_above(t.val@, prec) && is_literal(
                                u.val@,
                            ) && !starts_suffix(w.val@) && !binds_above(w.val@, prec) implies right == exp
                            && literal_expr(exp, u) && m3.current is Some && m3.current->0.val@ == w.val@ by {
                            assert(then_token(m1, u, w));
                            assert(continues(m2, m1, u, w));
                            assert forall|y: Token| #[trigger] next_token(m2, y) implies !binds_above(
                                y.val@,
                                other_prec,
                            ) by {}
                        }
                        assert forall|t: Token, u: Token, v: Token, x: Token, w: Token| #[trigger]
                            then_four(old(self).tokens, t, u, v, x, w) && binds_above(t.val@, prec)
                                && is_literal(u.val@) && binds_above(v.val@, prec) && !starts_suffix(v.val@)
                                && is_literal(x.val@) && !starts_suffix(w.val@) && !binds_above(w.val@, prec)
                            implies literal_expr(exp, u) && m2.current is Some && m2.current->0.val@ == v.val@
                            && then_two(m2, m2.current->0, x, w) && (precedence(v.val@->Op_0) > other_prec ==> (
                            right matches ASTExpression::Binary(c) && c.op@ == v.val@->Op_0 && c.left == exp
                                && literal_expr(*c.right, x) && m3.current is Some && m3.current->0.val@
                                == w.val@)) && (precedence(v.val@->Op_0) <= other_prec ==> right == exp
                            && m3 == m2) by {
                            assert(then_token(m1, u, v));
                            assert(then_three(m1, u, v, x, w));
                            assert(continues(m2, m1, u, v));
                            if precedence(v.val@->Op_0) <= other_prec {
                                assert forall|y: Token| #[trigger] next_token(m2, y) implies !binds_above(
                                    y.val@,
                                    other_prec,
                                ) by {}
                            } else {
                                assert(then_two(m2, m2.current->0, x, w));
                            }
                        }
                    }
                    let range = start.end(&self.tokens.last_loc);
                    let ghost bin = ASTExpression::Binary(
                        ASTBinary { op: val, left: Box::new(left_tok), right: Box::new(right), range },
                    );
                    let res = self.parse_binary(
                        ASTExpression::Binary(
                            ASTBinary {
                                op: val,
                                left: Box::new(left_tok),
                                right: Box::new(right),
                                range,
                            },
                        ),
                        prec,
                    );
                    proof {
                        assert forall|t: Token, u: Token, w: Token| #[trigger]
                            then_two(old(self).tokens, t, u, w) && binds_above(t.val@, prec) && is_literal(
                                u.val@,
                            ) && !starts_suffix(w.val@) && !binds_above(w.val@, prec) implies res == Ok::<
                            ASTExpression,
                            BaseError,
                        >(bin) && self.tokens == m3 by {
                            assert forall|y: Token| #[trigger] next_token(m3, y) implies !binds_above(
                                y.val@,
                                prec,
                            ) by {}
                        }
                        assert forall|t: Token, u: Token, v: Token, x: Token, w: Token| #[trigger]
                            then_four(old(self).tokens, t, u, v, x, w) && binds_above(t.val@, prec)
                                && is_literal(u.val@) && binds_above(v.val@, prec) && !starts_suffix(v.val@)
                                && is_literal(x.val@) && !starts_suffix(w.val@) && !binds_above(w.val@, prec)
                                && precedence(v.val@->Op_0) > other_prec implies res == Ok::<
                            ASTExpression,
                            BaseError,
                        >(bin) by {
                            assert forall|y: Token| #[trigger] next_token(m3, y) implies !binds_above(
                                y.val@,
                                prec,
                            ) by {}
                        }
                        assert forall|t: Token, u: Token, v: Token, x: Token, w: Token| #[trigger]
                            then_four(old(self).tokens, t, u, v, x, w) && binds_above(t.val@, prec)
                                && is_literal(u.val@) && binds_above(v.val@, prec) && !starts_suffix(v.val@)
                                && is_literal(x.val@) && !starts_suffix(w.val@) && !binds_above(w.val@, prec)
                                && precedence(v.val@->Op_0) <= other_prec implies (res matches Ok(
                            ASTExpression::Binary(b),
                        ) && b.op@ == v.val@->Op_0 && *b.left == bin && literal_expr(*b.right, x)) by {
                            assert(then_two(m3, m3.current->0, x, w));
                        }
                    }
                    return res;
                }
                Ok(left_tok)
            },
            _ => Ok(left_tok),
        }
    }

    /// Reads what follows an expression: `.name`, `?`, `..end` / `..=end`,
    /// a call `(..)`, an index `[..]`, or a module path `::` after a name.
    fn parse_suffix(&mut self, token: ASTExpression, parse_generics: bool) -> (r: LazyResult<ASTExpression>)
        requires
            parser_ok(*old(self)),
        ensures
            parsed(*old(self), *final(self)),
            final(self).parsed_main == old(self).parsed_main,
            r matches Ok(e) ==> e == token || e is DotAccess || e is Optional || e is Iterator
                || e is Call || e is IndexAccess || e is ModAccess || e is Var,
            no_suffix_next(old(self).tokens) ==> r == Ok::<ASTExpression, BaseError>(token)
                && peeked(old(self).tokens, final(self).tokens),
            r matches Ok(e) ==> wraps(e, token) || e is ModAccess || e is Var,
            forall|t: Token, u: Token|
                #[trigger] then_token(old(self).tokens, t, u) && t.val@ == TokenVal::Op("?"@)
                    && !starts_suffix(u.val@) ==> (r matches Ok(ASTExpression::Optional(o))
                    && *o.value == token),
            forall|t: Token, u: Token, w: Token|
                #[trigger] then_two(old(self).tokens, t, u, w) && t.val@ == TokenVal::Punc('(')
                    && u.val@ == TokenVal::Punc(')') && !starts_suffix(w.val@) ==> (r matches Ok(
                    ASTExpression::Call(c),
                ) && *c.target == token && c.args.expressions@.len() == 0 && c.typings is None),
            forall|t: Token, u: Token, v: Token, w: Token|
                #[trigger] then_three(old(self).tokens, t, u, v, w) && t.val@ == TokenVal::Punc('(')
                    && is_literal(u.val@) && v.val@ == TokenVal::Punc(')') && !starts_suffix(w.val@)
                    ==> (r matches Ok(ASTExpression::Call(c)) && *c.target == token
                    && c.args.expressions@.len() == 1 && literal_expr(c.args.expressions@[0], u)
                    && c.typings is None),
        decreases left(*old(self)), 10nat,
    {
        let start = self.tokens.input.loc();
        let next = self.peek_val();
        let ghost m0 = self.tokens;
        proof {
            lemma_peeked(old(self).tokens, self.tokens);
            assert forall|t: Token, u: Token| #[trigger]
                then_token(old(self).tokens, t, u) implies m0.current is Some && m0.current->0.val@
                == t.val@ && then_token(m0, m0.current->0, u) by {
                lemma_peek_then(old(self).tokens, m0, t, u);
            }
            assert forall|t: Token, u: Token, w: Token| #[trigger]
                then_two(old(self).tokens, t, u, w) implies m0.current is Some && m0.current->0.val@
                == t.val@ && then_two(m0, m0.current->0, u, w) by {
                lemma_peek_then_two(old(self).tokens, m0, t, u, w);
            }
            assert forall|t: Token, u: Token, v: Token, w: Token| #[trigger]
                then_three(old(self).tokens, t, u, v, w) implies m0.current is Some && m0.current->0.val@
                == t.val@ && then_three(m0, m0.current->0, u, v, w) by {
                lemma_peek_then_three(old(self).tokens, m0, t, u, v, w);
            }
            if m0.current is Some {
                assert forall|t: Token| #[trigger] next_token(old(self).tokens, t) implies t.val@
                    == m0.current->0.val@ by {
                    lemma_next_token_unique(old(self).tokens, old(self).tokens, t, m0.current->0);
                }
            }
            reveal_strlit(".");
            reveal_strlit("?");
            reveal_strlit("..");
            reveal_strlit("..=");
            assert(("."@)[0] != ("?"@)[0]);
            assert((".."@)[0] != ("?"@)[0]);
            assert(("..="@)[0] != ("?"@)[0]);
        }
        let ghost tk = token;
        match next {
            Some((TokenType::Op(val), _)) => {
                if str_eq(val.as_str(), ".") {
                    self.bump();
                    let allow_ints = match token {
                        ASTExpression::Int(_) | ASTExpression::Float(_) => false,
                        _ => true,
                    };
                    let target = match self.parse_varname(true, false, allow_ints, true) {
                        Ok(v) => v.0,
                        Err(e) => return Err(e),
                    };
                    let range = start.end(&self.tokens.last_loc);
                    let wrapped = ASTExpression::DotAccess(ASTDotAccess { target, value: Box::new(token), range });
                    let ghost wx = wrapped;
                    let res = self.parse_suffix(wrapped, parse_generics);
                    proof {
                        assert(wraps(tk, tk));
                        assert(wraps(wx, tk));
                        if res is Ok && wraps(res->Ok_0, wx) {
                            lemma_wraps_trans(res->Ok_0, wx, tk);
                        }
                    }
                    res
                } else if str_eq(val.as_str(), "?") {
                    self.bump();
                    proof {
                        assert forall|t: Token, u: Token| #[trigger]
                            then_token(old(self).tokens, t, u) && t.val@ == TokenVal::Op("?"@)
                                && !starts_suffix(u.val@) implies no_suffix_next(self.tokens) by {
                            lemma_then_take(m0, self.tokens, m0.current->0, m0.current->0, u);
                            assert forall|x: Token| #[trigger] next_token(self.tokens, x) implies !starts_suffix(
                                x.val@,
                            ) by {
                                lemma_next_token_unique(self.tokens, self.tokens, x, u);
                            }
                        }
                    }
                    let range = start.end(&self.tokens.last_loc);
                    let wrapped = ASTExpression::Optional(ASTOptional { value: Box::new(token), range });
                    let ghost wx = wrapped;
                    let res = self.parse_suffix(wrapped, parse_generics);
                    proof {
                        assert(wraps(tk, tk));
                        assert(wraps(wx, tk));
                        if res is Ok && wraps(res->Ok_0, wx) {
                            lemma_wraps_trans(res->Ok_0, wx, tk);
                        }
                    }
                    res
                } else if str_eq(val.as_str(), "..") || str_eq(val.as_str(), "..=") {
                    self.bump();
                    let end = match self.parse_expression_part(true) {
                        Ok(Some(end)) => end,
                        Ok(None) => {
                            return Err(err0(DiagnosticId::EndOfIter, start.end(&self.tokens.last_loc)));
                        },
                        Err(e) => return Err(e),
                    };
                    let it = ASTExpression::Iterator(
                        ASTIterator {
                            start: Box::new(token),
                            end: Box::new(end),
                            inclusive: str_eq(val.as_str(), "..="),
                            range: start.end(&self.tokens.last_loc),
                        },
                    );
                    proof {
                        assert(wraps(tk, tk));
                        assert(wraps(it, tk));
                    }
                    Ok(it)
                } else {
                    Ok(token)
                }
            },
            Some((TokenType::Punc(punc), _)) => {
                if punc == '(' {
                    self.bump();
                    let ghost m1 = self.tokens;
                    proof {
                        assert forall|t: Token, u: Token, w: Token| #[trigger]
                            then_two(old(self).tokens, t, u, w) && t.val@ == TokenVal::Punc('(')
                                implies then_token(m1, u, w) && next_token(m1, u) by {
                            lemma_then_two_take(m0, m1, m0.current->0, m0.current->0, u, w);
                        }
                        assert forall|t: Token, u: Token, v: Token, w: Token| #[trigger]
                            then_three(old(self).tokens, t, u, v, w) && t.val@ == TokenVal::Punc('(')
                                implies then_two(m1, u, v, w) by {
                            lemma_then_three_take(m0, m1, m0.current->0, m0.current->0, u, v, w);
                        }
                    }
                    let args = match self.parse_expression_list(')') {
                        Ok(a) => a,
                        Err(e) => return Err(e),
                    };
                    proof {
                        assert forall|t: Token, u: Token, w: Token| #[trigger]
                            then_two(old(self).tokens, t, u, w) && t.val@ == TokenVal::Punc('(') && u.val@
                                == TokenVal::Punc(')') && !starts_suffix(w.val@) implies args.expressions@.len()
                            == 0 && no_suffix_next(self.tokens) by {
                            assert(then_token(m1, u, w));
                            assert(next_token(self.tokens, w));
                            assert forall|x: Token| #[trigger] next_token(self.tokens, x) implies !starts_suffix(
                                x.val@,
                            ) by {
                                lemma_next_token_unique(self.tokens, self.tokens, x, w);
                            }
                        }
                        assert forall|t: Token, u: Token, v: Token, w: Token| #[trigger]
                            then_three(old(self).tokens, t, u, v, w) && t.val@ == TokenVal::Punc('(')
                                && is_literal(u.val@) && v.val@ == TokenVal::Punc(')') && !starts_suffix(
                                w.val@,
                            ) implies args.expressions@.len() == 1 && literal_expr(args.expressions@[0], u)
                            && no_suffix_next(self.tokens) by {
                            assert(then_two(m1, u, v, w));
                            assert(next_token(self.tokens, w));
                            assert forall|x: Token| #[trigger] next_token(self.tokens, x) implies !starts_suffix(
                                x.val@,
                            ) by {
                                lemma_next_token_unique(self.tokens, self.tokens, x, w);
                            }
                        }
                    }
                    let range = start.end(&self.tokens.last_loc);
                    let wrapped = ASTExpression::Call(ASTCall { target: Box::new(token), typings: None, args, range });
                    let ghost wx = wrapped;
                    let res = self.parse_suffix(wrapped, parse_generics);
                    proof {
                        assert(wraps(tk, tk));
                        assert(wraps(wx, tk));
                        if res is Ok && wraps(res->Ok_0, wx) {
                            lemma_wraps_trans(res->Ok_0, wx, tk);
                        }
                    }
                    res
                } else if punc == '[' {
                    self.bump();
                    let target = match self.parse_expression() {
                        Ok(Some(exp)) => exp,
                        Ok(None) => {
                            return Err(
                                err1(DiagnosticId::Expected, start.end(&self.tokens.last_loc), "expression"),
                            );
                        },
                        Err(e) => return Err(e),
                    };
                    match self.expect(TokenType::Punc(']'), None) {
                        Ok(_) => {},
                        Err(e) => return Err(e),
                    }
                    let range = start.end(&self.tokens.last_loc);
                    let wrapped = ASTExpression::IndexAccess(
                        ASTIndexAccess { target: Box::new(target), value: Box::new(token), range },
                    );
                    let ghost wx = wrapped;
                    let res = self.parse_suffix(wrapped, parse_generics);
                    proof {
                        assert(wraps(tk, tk));
                        assert(wraps(wx, tk));
                        if res is Ok && wraps(res->Ok_0, wx) {
                            lemma_wraps_trans(res->Ok_0, wx, tk);
                        }
                    }
                    res
                } else if punc == ':' {
                    match token {
                        ASTExpression::Var(v) => {
                            match self.parse_mod_access_or_var(v, true, true) {
                                Ok(ASTModAccessValues::ModAccess(acc)) => Ok(ASTExpression::ModAccess(acc)),
                                Ok(ASTModAccessValues::Var(v)) => Ok(ASTExpression::Var(v.value)),
                                Err(e) => Err(e),
                            }
                        },
                        _ => Err(err1(DiagnosticId::Expected, self.tokens.range_here(), "identifier")),
                    }
                } else {
                    Ok(token)
                }
            },
            _ => Ok(token),
        }
    }

    /// Reads one match arm pattern: a literal, a natural tuple or iterator,
    /// `_`, `none`, or an enum value.
    fn parse_match_arm_exp(&mut self) -> (r: LazyResult<ASTMatchArmExpressions>)
        requires
            parser_ok(*old(self)),
        ensures
            parsed(*old(self), *final(self)),
            final(self).parsed_main == old(self).parsed_main,
            r is Ok ==> left(*final(self)) < left(*old(self)),
            r matches Ok(ASTMatchArmExpressions::Tuple(t)) ==> natural_list(t.expressions@),
            r matches Ok(ASTMatchArmExpressions::Iterator(i)) ==> natural_iter(i),
            r matches Ok(ASTMatchArmExpressions::Enum(a)) ==> natural_mod_access(a),
            r is Ok ==> pattern_ok(r->Ok_0),
            forall|t: Token, u: Token|
                #[trigger] then_token(old(self).tokens, t, u) && pattern_literal(t.val@)
                    && !starts_suffix(u.val@) ==> (r matches Ok(p) && literal_pattern(p, t)),
        decreases left(*old(self)), 7nat,
    {
        let range = self.tokens.input.loc();
        let exp = match self.parse_expression_part(false) {
            Ok(Some(exp)) => exp,
            Ok(None) => {
                return Err(
                    err1(DiagnosticId::Expected, self.tokens.range_here(), "match arm condition"),
                );
            },
            Err(e) => return Err(e),
        };
        match exp {
            ASTExpression::Str(s) => Ok(ASTMatchArmExpressions::String(s)),
            ASTExpression::Int(i) => Ok(ASTMatchArmExpressions::Int(i)),
            ASTExpression::Float(f) => Ok(ASTMatchArmExpressions::Float(f)),
            ASTExpression::Bool(b) => Ok(ASTMatchArmExpressions::Bool(b)),
            ASTExpression::Char(c) => Ok(ASTMatchArmExpressions::Char(c)),
            ASTExpression::Tuple(t) => {
                if !is_natural_tuple(&t) {
                    return Err(
                        err1(
                            DiagnosticId::Expected,
                            range.end(&self.tokens.last_loc),
                            "natural tuple literal",
                        ),
                    );
                }
                Ok(ASTMatchArmExpressions::Tuple(t))
            },
            ASTExpression::Iterator(i) => {
                if !is_natural_iter(&i) {
                    return Err(
                        err1(
                            DiagnosticId::Expected,
                            range.end(&self.tokens.last_loc),
                            "natural iterator literal",
                        ),
                    );
                }
                Ok(ASTMatchArmExpressions::Iterator(i))
            },
            ASTExpression::Var(v) => {
                if !str_eq(v.value.as_str(), "_") {
                    return Err(
                        err1(DiagnosticId::Unexpected, range.end(&self.tokens.last_loc), "variable name"),
                    );
                }
                Ok(ASTMatchArmExpressions::Rest)
            },
            ASTExpression::NoneValue(r) => Ok(ASTMatchArmExpressions::NoneValue(r)),
            ASTExpression::ModAccess(acc) => {
                let single_var = match &acc.init {
                    Some(init) => init.expressions.len() == 1 && match &init.expressions[0] {
                        ASTExpression::Var(_) => true,
                        _ => false,
                    },
                    None => false,
                };
                if single_var {
                    return Ok(ASTMatchArmExpressions::EnumVar(acc));
                }
                if !is_natural_mod_access(&acc) {
                    return Err(
                        err1(
                            DiagnosticId::Expected,
                            range.end(&self.tokens.last_loc),
                            "natural enum value",
                        ),
                    );
                }
                Ok(ASTMatchArmExpressions::Enum(acc))
            },
            _ => Err(err0(DiagnosticId::WrongMatchArmExp, range.end(&self.tokens.last_loc))),
        }
    }

    /// Reads an expression and the binary operators that follow it.
    fn parse_expression(&mut self) -> (r: LazyResult<Option<ASTExpression>>)
        requires
            parser_ok(*old(self)),
        ensures
            parsed(*old(self), *final(self)),
            final(self).parsed_main == old(self).parsed_main,
            r is Ok ==> left(*final(self)) < left(*old(self)),
            forall|t: Token, u: Token|
                #[trigger] then_token(old(self).tokens, t, u) && is_literal(t.val@) && !starts_suffix(
                    u.val@,
                ) && !binds_above(u.val@, 0) ==> (r matches Ok(Some(e)) && literal_expr(e, t)
                    && continues(final(self).tokens, old(self).tokens, t, u)),
        decreases left(*old(self)), 7nat,
    {
        match self.parse_expression_part(true) {
            Ok(Some(exp)) => {
                match self.parse_binary(exp, 0) {
                    Ok(e) => Ok(Some(e)),
                    Err(e) => Err(e),
                }
            },
            Ok(None) => Ok(None),
            Err(e) => Err(e),
        }
    }

    /// Reads an expression, or a `yield` where expression statements are
    /// allowed.
    fn parse_expression_or_expression_statement(&mut self) -> (r: LazyResult<Option<ASTExpression>>)
        requires
            parser_ok(*old(self)),
        ensures
            parsed(*old(self), *final(self)),
            final(self).parsed_main == old(self).parsed_main,
            r is Ok ==> left(*final(self)) < left(*old(self)),
            forall|t: Token, u: Token|
                #[trigger] then_token(old(self).tokens, t, u) && is_literal(t.val@) && !starts_suffix(
                    u.val@,
                ) && !binds_above(u.val@, 0) ==> (r matches Ok(Some(e)) && literal_expr(e, t)
                    && continues(final(self).tokens, old(self).tokens, t, u)),
        decreases left(*old(self)), 8nat,
    {
        let range = self.tokens.input.loc();
        let next = self.peek_val();
        let ghost m0 = self.tokens;
        proof {
            assert forall|t: Token, u: Token|
                #[trigger] then_token(old(self).tokens, t, u) implies self.tokens.current is Some
                    && self.tokens.current->0.val@ == t.val@ && self.tokens.current->0.range == t.range
                    && then_token(self.tokens, self.tokens.current->0, u) by {
                lemma_peek_then(old(self).tokens, self.tokens, t, u);
            }
        }
        let res = match next {
            Some((TokenType::Kw(kw), _)) => {
                if str_eq(kw.as_str(), "yield") {
                    self.bump();
                    if !self.allow_exp_statements {
                        return Err(
                            err1(DiagnosticId::Unexpected, range.end(&self.tokens.last_loc), "yield expression"),
                        );
                    }
                    let value = match self.parse_expression() {
                        Ok(Some(exp)) => Some(Box::new(exp)),
                        Ok(None) => None,
                        Err(e) => return Err(e),
                    };
                    Ok(Some(ASTExpression::Yield(ASTYield { value, range: range.end(&self.tokens.last_loc) })))
                } else {
                    self.parse_expression()
                }
            },
            Some(_) => self.parse_expression(),
            None => Err(err0(DiagnosticId::UnexpectedEof, self.tokens.range_here())),
        };
        proof {
            assert forall|t: Token, u: Token|
                #[trigger] then_token(old(self).tokens, t, u) && is_literal(t.val@) && !starts_suffix(
                    u.val@,
                ) && !binds_above(u.val@, 0) implies continues(self.tokens, old(self).tokens, t, u) by {
                assert forall|w: Token| #[trigger]
                    then_two(old(self).tokens, t, u, w) implies then_token(
                    self.tokens,
                    self.tokens.current->0,
                    w,
                ) by {
                    lemma_peek_then_two(old(self).tokens, m0, t, u, w);
                }
                assert forall|w: Token, x: Token| #[trigger]
                    then_three(old(self).tokens, t, u, w, x) implies then_two(
                    self.tokens,
                    self.tokens.current->0,
                    w,
                    x,
                ) by {
                    lemma_peek_then_three(old(self).tokens, m0, t, u, w, x);
                }
            }
        }
        res
    }
}


impl Parser {
    /// Reads one expression without the binary operators that may follow:
    /// a literal, a name, a template literal, a prefix operator (`-`, `!`,
    /// `~`), `..end` (from 0), a spread, a parenthesized expression, a
    /// block, a tuple, a declaration, a function, `if`, `for`, `while`,
    /// `match`, `new` or `await`; then its suffixes. A `;` reads as no
    /// expression.
    #[verifier::rlimit(100)]
    #[verifier::spinoff_prover]
    fn parse_expression_part(&mut self, parse_generics_in_suffix: bool) -> (r: LazyResult<Option<ASTExpression>>)
        requires
            parser_ok(*old(self)),
        ensures
            parsed(*old(self), *final(self)),
            final(self).parsed_main == old(self).parsed_main,
            r is Ok ==> left(*final(self)) < left(*old(self)),
            r matches Ok(None) ==> exists|t: Token|
                #[trigger] next_token(old(self).tokens, t) && t.val@ == TokenVal::Punc(';'),
            forall|t: Token, u: Token|
                #[trigger] then_token(old(self).tokens, t, u) && is_literal(t.val@) && !starts_suffix(
                    u.val@,
                ) ==> (r matches Ok(Some(e)) && literal_expr(e, t) && next_reads(
                    final(self).tokens,
                    u.val@,
                ) && continues(final(self).tokens, old(self).tokens, t, u)),
            forall|t: Token|
                #[trigger] then_none(old(self).tokens, t) && is_literal(t.val@) ==> (r matches Ok(
                    Some(e),
                ) && literal_expr(e, t)),
            forall|t: Token, u: Token, w: Token|
                #[trigger] then_two(old(self).tokens, t, u, w) && (t.val@ == TokenVal::Op("..="@)
                    || t.val@ == TokenVal::Op(".."@)) && is_literal(u.val@) && !starts_suffix(w.val@)
                    && !binds_above(w.val@, 0) ==> (r matches Ok(Some(ASTExpression::Iterator(it)))
                    && *it.start == ASTExpression::Int(ASTInt { value: 0, range: t.range })
                    && literal_expr(*it.end, u) && it.inclusive == (t.val@ == TokenVal::Op("..="@))),
            forall|t: Token, u: Token, w: Token|
                #[trigger] then_two(old(self).tokens, t, u, w) && t.val@ == TokenVal::Kw("let"@)
                    && u.val@ is Var && w.val@ != TokenVal::Punc(':') && w.val@ != TokenVal::Op("="@)
                    ==> (r matches Ok(Some(ASTExpression::Declare(d))) && (d.var matches ASTDeclareTypes::Var(
                    v,
                ) && v.value@ == u.val@->Var_0) && !d.is_const && d.typings is None && d.value is None),
            forall|t: Token, u: Token, w: Token|
                #[trigger] then_two(old(self).tokens, t, u, w) && t.val@ == TokenVal::Kw("const"@)
                    && u.val@ is Var && w.val@ != TokenVal::Punc(':') && w.val@ != TokenVal::Op("="@)
                    ==> (r is Err && error_is(
                    r->Err_0,
                    DiagnosticId::ConstWithoutInit,
                    Seq::empty(),
                    Range { start: t.range.start, end: final(self).tokens.last_loc },
                )),
        decreases left(*old(self)), 6nat,
    {
        self.is_last_block = false;
        let ghost pre = self.tokens;
        let next = self.tokens.consume();
        proof {
            if next is Some && pre.current is None {
                assert(lex_read(pre, self.tokens, next));
            }
        }
        let token = match next {
            Some(t) => t,
            None => {
                return Err(err0(DiagnosticId::UnexpectedEof, self.tokens.range_here()));
            },
        };
        assert(next_token(old(self).tokens, token));
        let ghost pre_suffix = self.tokens;
        proof {
            assert forall|t: Token, u: Token, w: Token| #[trigger]
                then_two(old(self).tokens, t, u, w) implies then_token(pre_suffix, u, w) && t.val@
                == token.val@ && t.range == token.range by {
                let b = choose|b: Tokenizer| #[trigger] taken(old(self).tokens, b, t) && then_token(b, u, w);
                lemma_taken_unique(old(self).tokens, old(self).tokens, pre_suffix, b, token, t);
                lemma_reading_then(b, pre_suffix, u, w);
            }
            reveal_strlit("-");
            reveal_strlit("!");
            reveal_strlit("~");
            reveal_strlit("..");
            reveal_strlit("..=");
            reveal_strlit("let");
            reveal_strlit("const");
            assert(("-"@)[0] != (".."@)[0] && ("!"@)[0] != (".."@)[0] && ("~"@)[0] != (".."@)[0]);
            assert(("-"@)[0] != ("..="@)[0] && ("!"@)[0] != ("..="@)[0] && ("~"@)[0] != ("..="@)[0]);
            assert(("let"@)[0] != ("const"@)[0]);
        }
        let trange = token.range;
        let exp: ASTExpression = match token.val {
            TokenType::Int(value) => ASTExpression::Int(ASTInt { value, range: trange }),
            TokenType::Float(value) => ASTExpression::Float(ASTFloat { value, range: trange }),
            TokenType::Str(value) => ASTExpression::Str(ASTStr { value, range: trange }),
            TokenType::Char(value) => ASTExpression::Char(ASTChar { value, range: trange }),
            TokenType::NoneValue => ASTExpression::NoneValue(trange),
            TokenType::Var(value) => ASTExpression::Var(ASTVar { value, range: trange }),
            TokenType::Bool(value) => ASTExpression::Bool(ASTBool { value, range: trange }),
            TokenType::TempStrStart => {
                match self.parse_template(trange) {
                    Ok(e) => e,
                    Err(e) => return Err(e),
                }
            },
            TokenType::Op(value) => {
                if str_eq(value.as_str(), "-") || str_eq(value.as_str(), "!") || str_eq(
                    value.as_str(),
                    "~",
                ) {
                    let val = match self.parse_expression_part(parse_generics_in_suffix) {
                        Ok(Some(v)) => v,
                        Ok(None) => {
                            return Err(err1(DiagnosticId::Expected, trange, "expression"));
                        },
                        Err(e) => return Err(e),
                    };
                    ASTExpression::Unary(ASTUnary { op: value, value: Box::new(val), range: trange })
                } else if str_eq(value.as_str(), "..") || str_eq(value.as_str(), "..=") {
                    let end = match self.parse_expression() {
                        Ok(Some(exp)) => exp,
                        Ok(None) => {
                            return Err(
                                err1(DiagnosticId::Expected, self.tokens.range_here(), "expression"),
                            );
                        },
                        Err(e) => return Err(e),
                    };
                    proof {
                        assert forall|t: Token, u: Token, w: Token| #[trigger]
                            then_two(old(self).tokens, t, u, w) && is_literal(u.val@) && !starts_suffix(
                                w.val@,
                            ) && !binds_above(w.val@, 0) implies literal_expr(end, u) && no_suffix_next(
                            self.tokens,
                        ) by {
                            assert(then_token(pre_suffix, u, w));
                        }
                    }
                    ASTExpression::Iterator(
                        ASTIterator {
                            start: Box::new(ASTExpression::Int(ASTInt { value: 0, range: trange })),
                            end: Box::new(end),
                            inclusive: str_eq(value.as_str(), "..="),
                            range: trange.end_with(&self.tokens.last_loc),
                        },
                    )
                } else if str_eq(value.as_str(), "...") {
                    let v = match self.parse_expression() {
                        Ok(Some(exp)) => exp,
                        Ok(None) => {
                            return Err(
                                err1(DiagnosticId::Expected, self.tokens.range_here(), "expression"),
                            );
                        },
                        Err(e) => return Err(e),
                    };
                    ASTExpression::Spread(
                        ASTSpread { value: Box::new(v), range: trange.end_with(&self.tokens.last_loc) },
                    )
                } else {
                    return Err(
                        err1(
                            DiagnosticId::UnexpectedOp,
                            trange.end_with(&self.tokens.last_loc),
                            value.as_str(),
                        ),
                    );
                }
            },
            TokenType::Punc(val) => {
                if val == '(' {
                    if self.next_is_punc(')') {
                        return Err(
                            err1(DiagnosticId::Unexpected, self.tokens.range_here(), "empty expression"),
                        );
                    }
                    let exp = match self.parse_expression() {
                        Ok(Some(exp)) => exp,
                        Ok(None) => {
                            return Err(
                                err1(DiagnosticId::Expected, self.tokens.range_here(), "expression"),
                            );
                        },
                        Err(e) => return Err(e),
                    };
                    let e = err1(
                        DiagnosticId::Expected,
                        self.tokens.range_here(),
                        "end of wrapped expression",
                    );
                    match self.expect(TokenType::Punc(')'), Some(e)) {
                        Ok(_) => {},
                        Err(e) => return Err(e),
                    }
                    exp
                } else if val == ';' {
                    return Ok(None);
                } else if val == '{' {
                    match self.parse_block(true) {
                        Ok(b) => ASTExpression::Block(b),
                        Err(e) => return Err(e),
                    }
                } else if val == '[' {
                    if self.next_is_punc(']') {
                        return Err(
                            err1(DiagnosticId::Unexpected, self.tokens.range_here(), "empty tuple"),
                        );
                    }
                    match self.parse_expression_list(']') {
                        Ok(l) => ASTExpression::Tuple(l),
                        Err(e) => return Err(e),
                    }
                } else {
                    let text = crate::text::char_to_string(val);
                    return Err(
                        err1(
                            DiagnosticId::UnexpectedPunc,
                            trange.end_with(&self.tokens.last_loc),
                            text.as_str(),
                        ),
                    );
                }
            },
            TokenType::Kw(val) => {
                match self.parse_keyword_part(val, trange) {
                    Ok((e, true)) => return Ok(Some(e)),
                    Ok((e, false)) => e,
                    Err(e) => return Err(e),
                }
            },
        };
        proof {
            if is_literal(token.val@) {
                assert(self.tokens == pre_suffix);
                assert(literal_expr(exp, token));
                assert forall|t: Token, u: Token|
                    #[trigger] then_token(old(self).tokens, t, u) && is_literal(t.val@)
                        && !starts_suffix(u.val@) implies literal_expr(exp, t) && no_suffix_next(
                    self.tokens,
                ) by {
                    lemma_then_token(old(self).tokens, pre_suffix, token, t, u);
                }
                assert forall|t: Token|
                    #[trigger] then_none(old(self).tokens, t) && is_literal(
                        t.val@,
                    ) implies literal_expr(exp, t) && no_suffix_next(self.tokens) by {
                    lemma_then_none(old(self).tokens, pre_suffix, token, t);
                }
            }
        }
        let res = match self.parse_suffix(exp, parse_generics_in_suffix) {
            Ok(e) => Ok(Some(e)),
            Err(e) => Err(e),
        };
        proof {
            if is_literal(token.val@) {
                assert forall|t: Token, u: Token|
                    #[trigger] then_token(old(self).tokens, t, u) && is_literal(t.val@)
                        && !starts_suffix(u.val@) implies next_reads(self.tokens, u.val@) && continues(
                    self.tokens,
                    old(self).tokens,
                    t,
                    u,
                ) by {
                    lemma_then_peek(old(self).tokens, pre_suffix, token, t, u, self.tokens);
                    assert forall|w: Token| #[trigger]
                        then_two(old(self).tokens, t, u, w) implies then_token(
                        self.tokens,
                        self.tokens.current->0,
                        w,
                    ) by {
                        let b = choose|b: Tokenizer| #[trigger]
                            taken(old(self).tokens, b, t) && then_token(b, u, w);
                        lemma_taken_unique(old(self).tokens, old(self).tokens, pre_suffix, b, token, t);
                        lemma_reading_then(b, pre_suffix, u, w);
                        lemma_peek_then(pre_suffix, self.tokens, u, w);
                    }
                    assert forall|w: Token, x: Token| #[trigger]
                        then_three(old(self).tokens, t, u, w, x) implies then_two(
                        self.tokens,
                        self.tokens.current->0,
                        w,
                        x,
                    ) by {
                        let b = choose|b: Tokenizer| #[trigger]
                            taken(old(self).tokens, b, t) && then_two(b, u, w, x);
                        lemma_taken_unique(old(self).tokens, old(self).tokens, pre_suffix, b, token, t);
                        lemma_reading_then_two(b, pre_suffix, u, w, x);
                        lemma_peek_then_two(pre_suffix, self.tokens, u, w, x);
                    }
                }
            }
        }
        res
    }

    /// Reads what follows a keyword that starts an expression (the keyword
    /// `val`, at `trange`, was already taken): a declaration after `let` or
    /// `const`, a function after `fn`, `if`, `for`, `while`, `match`, `new`
    /// or `await`. The flag tells whether the expression is complete (no
    /// suffix can follow it). Any other keyword is an error.
    #[verifier::rlimit(60)]
    fn parse_keyword_part(&mut self, val: String, trange: Range) -> (r: LazyResult<(ASTExpression, bool)>)
        requires
            parser_ok(*old(self)),
        ensures
            parsed(*old(self), *final(self)),
            final(self).parsed_main == old(self).parsed_main,
            forall|u: Token, w: Token|
                #[trigger] then_token(old(self).tokens, u, w) && val@ == "let"@ && u.val@ is Var
                    && w.val@ != TokenVal::Punc(':') && w.val@ != TokenVal::Op("="@) ==> (r matches Ok(
                    (ASTExpression::Declare(d), true),
                ) && (d.var matches ASTDeclareTypes::Var(v) && v.value@ == u.val@->Var_0) && !d.is_const
                    && d.typings is None && d.value is None),
            forall|u: Token, w: Token|
                #[trigger] then_token(old(self).tokens, u, w) && val@ == "const"@ && u.val@ is Var
                    && w.val@ != TokenVal::Punc(':') && w.val@ != TokenVal::Op("="@) ==> (r is Err
                    && error_is(
                    r->Err_0,
                    DiagnosticId::ConstWithoutInit,
                    Seq::empty(),
                    Range { start: trange.start, end: final(self).tokens.last_loc },
                )),
        decreases left(*old(self)), 12nat,
    {
        proof {
            reveal_strlit("let");
            reveal_strlit("const");
            assert(("let"@)[0] != ("const"@)[0]);
        }
        let e: ASTExpression = {
            if str_eq(val.as_str(), "let") || str_eq(val.as_str(), "const") {
                let is_const = str_eq(val.as_str(), "const");
                return match self.parse_declare(is_const, trange) {
                    Ok(e) => Ok((e, true)),
                    Err(e) => Err(e),
                };
            } else if str_eq(val.as_str(), "fn") {
                match self.parse_function(true) {
                    Ok(f) => ASTExpression::Function(f),
                    Err(e) => return Err(e),
                }
            } else if str_eq(val.as_str(), "if") {
                return match self.parse_if(trange) {
                    Ok(e) => Ok((e, true)),
                    Err(e) => Err(e),
                };
            } else if str_eq(val.as_str(), "for") {
                return match self.parse_for(trange) {
                    Ok(e) => Ok((e, true)),
                    Err(e) => Err(e),
                };
            } else if str_eq(val.as_str(), "while") {
                return match self.parse_while(trange) {
                    Ok(e) => Ok((e, true)),
                    Err(e) => Err(e),
                };
            } else if str_eq(val.as_str(), "match") {
                return match self.parse_match(trange) {
                    Ok(e) => Ok((e, true)),
                    Err(e) => Err(e),
                };
            } else if str_eq(val.as_str(), "new") {
                let target = match self.parse_mod_access_or_var_without_var(false, true) {
                    Ok(t) => t,
                    Err(e) => return Err(e),
                };
                let typings = if self.next_is_op("<") {
                    self.bump();
                    match self.parse_typing_list(false, false, TokenType::Op(to_owned_string(">"))) {
                        Ok(l) => Some(l),
                        Err(e) => return Err(e),
                    }
                } else {
                    None
                };
                let e = err1(DiagnosticId::Expected, self.tokens.range_here(), "struct initializor");
                match self.expect(TokenType::Punc('{'), Some(e)) {
                    Ok(_) => {},
                    Err(e) => return Err(e),
                }
                let params = match self.parse_pair_list(true, '}') {
                    Ok(p) => p,
                    Err(e) => return Err(e),
                };
                ASTExpression::Init(
                    ASTInitializor {
                        target,
                        params,
                        typings,
                        range: trange.end_with(&self.tokens.last_loc),
                    },
                )
            } else if str_eq(val.as_str(), "await") {
                let optional = if self.next_is_op("?") {
                    self.bump();
                    true
                } else {
                    false
                };
                let expression = match self.parse_expression() {
                    Ok(Some(exp)) => exp,
                    Ok(None) => {
                        return Err(
                            err1(DiagnosticId::Expected, self.tokens.range_here(), "expression"),
                        );
                    },
                    Err(e) => return Err(e),
                };
                ASTExpression::Await(
                    ASTAwait {
                        optional,
                        expression: Box::new(expression),
                        range: trange.end_with(&self.tokens.last_loc),
                    },
                )
            } else {
                let mut text = to_owned_string("keyword \"");
                text.append(val.as_str());
                text.append("\"");
                return Err(err2(DiagnosticId::ExpectedFound, trange, "expression", text.as_str()));
            }
        };
        Ok((e, false))
    }

    /// Reads the rest of a template literal after its opening backquote:
    /// raw text, `\\` escapes and `${expression}` parts, up to the closing
    /// backquote. A template without expressions is reported as pointless.
    fn parse_template(&mut self, trange: Range) -> (r: LazyResult<ASTExpression>)
        requires
            parser_ok(*old(self)),
            old(self).tokens.current is None,
        ensures
            parsed(*old(self), *final(self)),
            final(self).parsed_main == old(self).parsed_main,
            ({
                let s = old(self).tokens.input.code();
                let q = template_stop(s, old(self).tokens.input.pos() as int, false);
                let here = Range { start: trange.start, end: old(self).tokens.last_loc };
                &&& q >= s.len() ==> r is Err && error_is(
                    r->Err_0,
                    DiagnosticId::EndOfStr,
                    Seq::empty(),
                    here,
                )
                &&& q < s.len() && s[q] == '`' ==> r is Err && error_is(
                    r->Err_0,
                    DiagnosticId::PointlessTemplate,
                    Seq::empty(),
                    here,
                )
            }),
            r is Ok ==> r->Ok_0 is TempStr,
            r matches Ok(ASTExpression::TempStr(t)) ==> t.values@.len() > 0,
        decreases left(*old(self)), 5nat,
    {
        let ghost s = self.tokens.input.code();
        let ghost q0 = template_stop(s, self.tokens.input.pos() as int, false);
        let mut string = String::new();
        let mut exps: Vec<(usize, ASTExpression)> = Vec::new();
        let mut is_prev_escape = false;
        loop
            invariant_except_break
                exps@.len() == 0 ==> template_stop(s, self.tokens.input.pos() as int, is_prev_escape)
                    == q0,
            invariant
                parsed(*old(self), *self),
                self.parsed_main == old(self).parsed_main,
                self.tokens.current is None,
                s == old(self).tokens.input.code(),
                q0 == template_stop(s, old(self).tokens.input.pos() as int, false),
                exps@.len() == 0 ==> self.tokens.last_loc == old(self).tokens.last_loc,
                exps@.len() > 0 ==> 0 <= q0 < s.len() && s[q0] == '$',
            ensures
                exps@.len() == 0 ==> 0 <= q0 < s.len() && s[q0] == '`',
            decreases left(*self),
        {
            let ghost before = *self;
            match self.tokens.input.consume() {
                Some(ch) => {
                    if ch == '`' {
                        break;
                    } else if ch == '$' && !is_prev_escape {
                        match self.expect(TokenType::Punc('{'), None) {
                            Ok(_) => {},
                            Err(e) => return Err(e),
                        }
                        let exp = match self.parse_expression() {
                            Ok(Some(exp)) => exp,
                            Ok(None) => {
                                return Err(
                                    err1(DiagnosticId::Expected, self.tokens.range_here(), "expression"),
                                );
                            },
                            Err(e) => return Err(e),
                        };
                        match self.expect(TokenType::Punc('}'), None) {
                            Ok(_) => {},
                            Err(e) => return Err(e),
                        }
                        let key = crate::text::byte_len(string.as_str());
                        exps.push((key, exp));
                        crate::text::push_char(&mut string, ' ');
                    } else if ch == '\\' {
                        is_prev_escape = true;
                    } else {
                        is_prev_escape = false;
                        crate::text::push_char(&mut string, ch);
                    }
                },
                None => {
                    return Err(err0(DiagnosticId::EndOfStr, trange.end_with(&self.tokens.last_loc)));
                },
            }
        }
        if exps.len() == 0 {
            return Err(err0(DiagnosticId::PointlessTemplate, trange.end_with(&self.tokens.last_loc)));
        }
        Ok(
            ASTExpression::TempStr(
                ASTTempStr {
                    template: string,
                    values: exps,
                    range: trange.end_with(&self.tokens.last_loc),
                },
            ),
        )
    }
}


impl Parser {
    /// Reads a declaration after `let` or `const` (at `trange`): a name or a
    /// tuple or struct pattern, a typing after `:`, and a value after `=`
    /// (which a constant must have).
    fn parse_declare(&mut self, is_const: bool, trange: Range) -> (r: LazyResult<ASTExpression>)
        requires
            parser_ok(*old(self)),
        ensures
            parsed(*old(self), *final(self)),
            final(self).parsed_main == old(self).parsed_main,
            r is Ok ==> r->Ok_0 is Declare,
            r matches Ok(ASTExpression::Declare(d)) ==> d.is_const == is_const && (is_const
                ==> d.value is Some),
            forall|t: Token, u: Token|
                #[trigger] then_token(old(self).tokens, t, u) && t.val@ is Var && u.val@ != TokenVal::Punc(
                    ':',
                ) && u.val@ != TokenVal::Op("="@) && !is_const ==> (r matches Ok(
                    ASTExpression::Declare(d),
                ) && (d.var matches ASTDeclareTypes::Var(v) && v.value@ == t.val@->Var_0 && v.range
                    == t.range) && d.typings is None && d.value is None),
            forall|t: Token, u: Token|
                #[trigger] then_token(old(self).tokens, t, u) && t.val@ is Var && u.val@ != TokenVal::Punc(
                    ':',
                ) && u.val@ != TokenVal::Op("="@) && is_const ==> (r is Err && error_is(
                    r->Err_0,
                    DiagnosticId::ConstWithoutInit,
                    Seq::empty(),
                    Range { start: trange.start, end: final(self).tokens.last_loc },
                )),
        decreases left(*old(self)), 5nat,
    {
        let ghost good = exists|t: Token, u: Token|
            #[trigger] then_token(old(self).tokens, t, u) && t.val@ is Var && u.val@ != TokenVal::Punc(
                ':',
            ) && u.val@ != TokenVal::Op("="@);
        let to_get_name = match self.tokens.consume() {
            Some(n) => n,
            None => {
                return Err(
                    err1(
                        DiagnosticId::Expected,
                        trange.end_with(&self.tokens.last_loc),
                        "variable name",
                    ),
                );
            },
        };
        let ghost m1 = self.tokens;
        proof {
            assert forall|t: Token, u: Token| #[trigger]
                then_token(old(self).tokens, t, u) implies t.val@ == to_get_name.val@ && t.range
                == to_get_name.range by {
                lemma_then_token(old(self).tokens, m1, to_get_name, t, u);
            }
            if good {
                let (t, u) = choose|t: Token, u: Token|
                    #[trigger] then_token(old(self).tokens, t, u) && t.val@ is Var && u.val@
                        != TokenVal::Punc(':') && u.val@ != TokenVal::Op("="@);
                assert forall|f: Tokenizer| #[trigger]
                    peeked(m1, f) implies f.current is Some && f.current->0.val@ == u.val@ by {
                    lemma_then_peek(old(self).tokens, m1, to_get_name, t, u, f);
                }
            }
        }
        let name_range = to_get_name.range;
        let var = match to_get_name.val {
            TokenType::Punc('[') => {
                match self.parse_varname_list(']') {
                    Ok(l) => ASTDeclareTypes::TupleDeconstruct(l),
                    Err(e) => return Err(e),
                }
            },
            TokenType::Punc('{') => {
                match self.parse_varname_list('}') {
                    Ok(l) => ASTDeclareTypes::StructDeconstruct(l),
                    Err(e) => return Err(e),
                }
            },
            TokenType::Var(v) => ASTDeclareTypes::Var(ASTVar { value: v, range: name_range }),
            other => {
                let text = other.to_display_string();
                return Err(
                    err2(
                        DiagnosticId::ExpectedFound,
                        name_range,
                        "identifier or deconstruct pattern",
                        text.as_str(),
                    ),
                );
            },
        };
        let typings = if self.next_is_punc(':') {
            self.bump();
            match self.parse_typing(false, true, true) {
                Ok(ty) => Some(ty),
                Err(e) => return Err(e),
            }
        } else {
            None
        };
        let value = if self.next_is_op("=") {
            self.bump();
            match self.parse_expression() {
                Ok(Some(exp)) => Some(Box::new(exp)),
                Ok(None) => {
                    return Err(err1(DiagnosticId::Expected, self.tokens.range_here(), "expression"));
                },
                Err(e) => return Err(e),
            }
        } else {
            if is_const {
                return Err(err0(DiagnosticId::ConstWithoutInit, trange.end_with(&self.tokens.last_loc)));
            }
            None
        };
        Ok(
            ASTExpression::Declare(
                ASTDeclare {
                    var,
                    is_const,
                    typings,
                    value,
                    range: trange.end_with(&self.tokens.last_loc),
                },
            ),
        )
    }

    /// Reads an `if` after the keyword: condition, then-branch and an
    /// optional `else` branch.
    fn parse_if(&mut self, trange: Range) -> (r: LazyResult<ASTExpression>)
        requires
            parser_ok(*old(self)),
        ensures
            parsed(*old(self), *final(self)),
            final(self).parsed_main == old(self).parsed_main,
            r is Ok ==> left(*final(self)) < left(*old(self)),
            r is Ok ==> r->Ok_0 is If,
            forall|t: Token, u: Token, w: Token|
                #[trigger] then_two(old(self).tokens, t, u, w) && is_literal(t.val@) && is_literal(
                    u.val@,
                ) && !starts_suffix(u.val@) && !binds_above(u.val@, 0) && !starts_suffix(w.val@)
                    && !binds_above(w.val@, 0) && w.val@ != TokenVal::Kw("else"@) ==> (r matches Ok(
                    ASTExpression::If(x),
                ) && literal_expr(*x.condition, t) && literal_expr(*x.then_branch, u)
                    && x.otherwise is None),
        decreases left(*old(self)), 9nat,
    {
        proof {
            assert forall|t: Token, u: Token, w: Token| #[trigger]
                then_two(old(self).tokens, t, u, w) implies then_token(old(self).tokens, t, u) by {
                lemma_then_two_first(old(self).tokens, t, u, w);
            }
        }
        let condition = match self.parse_expression() {
            Ok(Some(exp)) => exp,
            Ok(None) => {
                return Err(err1(DiagnosticId::Expected, self.tokens.range_here(), "expression"));
            },
            Err(e) => return Err(e),
        };
        let then_branch = match self.parse_expression_or_expression_statement() {
            Ok(Some(exp)) => exp,
            Ok(None) => {
                return Err(err1(DiagnosticId::Expected, self.tokens.range_here(), "expression"));
            },
            Err(e) => return Err(e),
        };
        let otherwise = if self.next_is_kw("else") {
            self.bump();
            match self.parse_expression_or_expression_statement() {
                Ok(Some(exp)) => Some(Box::new(exp)),
                Ok(None) => {
                    return Err(err1(DiagnosticId::Expected, self.tokens.range_here(), "expression"));
                },
                Err(e) => return Err(e),
            }
        } else {
            None
        };
        Ok(
            ASTExpression::If(
                ASTIf {
                    condition: Box::new(condition),
                    then_branch: Box::new(then_branch),
                    otherwise,
                    range: trange.end_with(&self.tokens.last_loc),
                },
            ),
        )
    }

    /// Reads a `for` loop after the keyword: the variable, `in`, the
    /// iterable and the body (where `yield` is allowed).
    fn parse_for(&mut self, trange: Range) -> (r: LazyResult<ASTExpression>)
        requires
            parser_ok(*old(self)),
        ensures
            parsed(*old(self), *final(self)),
            final(self).parsed_main == old(self).parsed_main,
            r is Ok ==> left(*final(self)) < left(*old(self)),
            r is Ok ==> r->Ok_0 is ForIn,
            forall|t: Token, u: Token, w: Token, v: Token, z: Token|
                #[trigger] then_four(old(self).tokens, t, u, w, v, z) && t.val@ is Var && u.val@
                    == TokenVal::Kw("in"@) && is_literal(w.val@) && !starts_suffix(v.val@) && !binds_above(
                    v.val@,
                    0,
                ) && is_literal(v.val@) && !starts_suffix(z.val@) && !binds_above(z.val@, 0)
                    ==> (r matches Ok(ASTExpression::ForIn(x)) && x.var.value@ == t.val@->Var_0
                    && literal_expr(*x.iterable, w) && literal_expr(*x.body, v)),
        decreases left(*old(self)), 9nat,
    {
        proof {
            assert(with_num_mode(old(self).tokens, false) == old(self).tokens);
            assert forall|t: Token, u: Token, w: Token, v: Token, z: Token| #[trigger]
                then_four(old(self).tokens, t, u, w, v, z) implies next_token(old(self).tokens, t) by {
                let b = choose|b: Tokenizer| #[trigger]
                    taken(old(self).tokens, b, t) && then_three(b, u, w, v, z);
                lemma_taken_unique(old(self).tokens, old(self).tokens, b, b, t, t);
            }
        }
        let var = match self.parse_varname(false, false, false, false) {
            Ok(v) => v.0,
            Err(e) => return Err(e),
        };
        let ghost f1 = self.tokens;
        proof {
            let (b1, t1) = choose|b: Tokenizer, t: Token|
                #[trigger] taken(with_num_mode(old(self).tokens, false), b, t) && name_of(t.val@, false, false)
                    == Some(var.value@) && peeked(with_num_mode(b, false), f1);
            assert(with_num_mode(b1, false) == b1);
            assert forall|t: Token, u: Token, w: Token, v: Token, z: Token| #[trigger]
                then_four(old(self).tokens, t, u, w, v, z) implies t.val@ == t1.val@ && f1.current is Some
                && f1.current->0.val@ == u.val@ && then_three(f1, f1.current->0, w, v, z) by {
                let b = choose|b: Tokenizer| #[trigger]
                    taken(old(self).tokens, b, t) && then_three(b, u, w, v, z);
                lemma_taken_unique(old(self).tokens, old(self).tokens, b1, b, t1, t);
                lemma_reading_then_three(b, b1, u, w, v, z);
                lemma_peek_then_three(b1, f1, u, w, v, z);
            }
            if f1.current is Some {
                assert(next_token(f1, f1.current->0));
            }
        }
        match self.expect(TokenType::Kw(to_owned_string("in")), None) {
            Ok(_) => {},
            Err(e) => return Err(e),
        }
        let ghost f2 = self.tokens;
        proof {
            assert forall|t: Token, u: Token, w: Token, v: Token, z: Token| #[trigger]
                then_four(old(self).tokens, t, u, w, v, z) && u.val@ == TokenVal::Kw(
                    "in"@,
                ) implies then_two(f2, w, v, z) && then_token(f2, w, v) by {
                let x = choose|x: Token| x.val@ == TokenVal::Kw("in"@) && #[trigger] taken(f1, f2, x);
                lemma_then_three_take(f1, f2, x, f1.current->0, w, v, z);
                lemma_then_two_first(f2, w, v, z);
            }
        }
        let iterator = match self.parse_expression() {
            Ok(Some(exp)) => exp,
            Ok(None) => {
                return Err(err1(DiagnosticId::Expected, self.tokens.range_here(), "expression"));
            },
            Err(e) => return Err(e),
        };
        let turn_off_exp_statements = !self.allow_exp_statements;
        self.allow_exp_statements = true;
        let body = match self.parse_expression_or_expression_statement() {
            Ok(Some(exp)) => exp,
            Ok(None) => {
                return Err(err1(DiagnosticId::Expected, self.tokens.range_here(), "expression"));
            },
            Err(e) => return Err(e),
        };
        if turn_off_exp_statements {
            self.allow_exp_statements = false;
        }
        Ok(
            ASTExpression::ForIn(
                ASTForIn {
                    var,
                    iterable: Box::new(iterator),
                    body: Box::new(body),
                    range: trange.end_with(&self.tokens.last_loc),
                },
            ),
        )
    }

    /// Reads a `while` loop after the keyword: the condition and the body
    /// (where `yield` is allowed).
    fn parse_while(&mut self, trange: Range) -> (r: LazyResult<ASTExpression>)
        requires
            parser_ok(*old(self)),
        ensures
            parsed(*old(self), *final(self)),
            final(self).parsed_main == old(self).parsed_main,
            r is Ok ==> left(*final(self)) < left(*old(self)),
            r is Ok ==> r->Ok_0 is While,
            forall|t: Token, u: Token, w: Token|
                #[trigger] then_two(old(self).tokens, t, u, w) && is_literal(t.val@) && is_literal(
                    u.val@,
                ) && !starts_suffix(u.val@) && !binds_above(u.val@, 0) && !starts_suffix(w.val@)
                    && !binds_above(w.val@, 0) ==> (r matches Ok(ASTExpression::While(x))
                    && literal_expr(*x.condition, t) && literal_expr(*x.body, u)),
        decreases left(*old(self)), 9nat,
    {
        proof {
            assert forall|t: Token, u: Token, w: Token| #[trigger]
                then_two(old(self).tokens, t, u, w) implies then_token(old(self).tokens, t, u) by {
                lemma_then_two_first(old(self).tokens, t, u, w);
            }
        }
        let cond = match self.parse_expression() {
            Ok(Some(exp)) => exp,
            Ok(None) => {
                return Err(err1(DiagnosticId::Expected, self.tokens.range_here(), "expression"));
            },
            Err(e) => return Err(e),
        };
        let turn_off_exp_statements = !self.allow_exp_statements;
        self.allow_exp_statements = true;
        let body = match self.parse_expression_or_expression_statement() {
            Ok(Some(exp)) => exp,
            Ok(None) => {
                return Err(err1(DiagnosticId::Expected, self.tokens.range_here(), "expression"));
            },
            Err(e) => return Err(e),
        };
        if turn_off_exp_statements {
            self.allow_exp_statements = false;
        }
        Ok(
            ASTExpression::While(
                ASTWhile {
                    condition: Box::new(cond),
                    body: Box::new(body),
                    range: trange.end_with(&self.tokens.last_loc),
                },
            ),
        )
    }

    /// Reads a `match` after the keyword: the matched expression, then arms
    /// `pattern | pattern if guard => body` up to `}`.
    #[verifier::rlimit(40)]
    fn parse_match(&mut self, trange: Range) -> (r: LazyResult<ASTExpression>)
        requires
            parser_ok(*old(self)),
        ensures
            parsed(*old(self), *final(self)),
            final(self).parsed_main == old(self).parsed_main,
            r is Ok ==> left(*final(self)) < left(*old(self)),
            r is Ok ==> r->Ok_0 is Match,
            r matches Ok(ASTExpression::Match(m)) ==> forall|i: int, j: int|
                0 <= i < m.arms@.len() && 0 <= j < m.arms@[i].possibilities@.len()
                    ==> pattern_ok(#[trigger] m.arms@[i].possibilities@[j]),
            forall|t: Token, u: Token, w: Token|
                #[trigger] then_two(old(self).tokens, t, u, w) && is_literal(t.val@) && u.val@
                    == TokenVal::Punc('{') && w.val@ == TokenVal::Punc('}') ==> (r matches Ok(
                    ASTExpression::Match(m),
                ) && literal_expr(*m.expression, t) && m.arms@.len() == 0),
        decreases left(*old(self)), 9nat,
    {
        let ghost good = empty_match_next(old(self).tokens);
        let ghost (t0, u0, w0) = choose|t: Token, u: Token, w: Token|
            #[trigger] then_two(old(self).tokens, t, u, w) && is_literal(t.val@) && u.val@ == TokenVal::Punc(
                '{',
            ) && w.val@ == TokenVal::Punc('}');
        proof {
            assert forall|t: Token, u: Token, w: Token| #[trigger]
                then_two(old(self).tokens, t, u, w) implies then_token(old(self).tokens, t, u) by {
                lemma_then_two_first(old(self).tokens, t, u, w);
            }
        }
        let to_get_matched = match self.parse_expression() {
            Ok(Some(exp)) => exp,
            Ok(None) => {
                return Err(err1(DiagnosticId::Expected, self.tokens.range_here(), "expression"));
            },
            Err(e) => return Err(e),
        };
        let ghost f1 = self.tokens;
        proof {
            if good {
                assert(next_token(f1, f1.current->0));
            }
        }
        match self.expect(TokenType::Punc('{'), None) {
            Ok(_) => {},
            Err(e) => return Err(e),
        }
        let ghost f2 = self.tokens;
        proof {
            if good {
                let x = choose|x: Token| x.val@ == TokenVal::Punc('{') && #[trigger] taken(f1, f2, x);
                lemma_then_take(f1, f2, x, f1.current->0, w0);
            }
        }
        let mut arms: Vec<ASTMatchArm> = Vec::new();
        let ghost mut first = true;
        while !self.next_is_punc('}')
            invariant
                first ==> self.tokens == f2 && arms@.len() == 0,
                good ==> next_token(f2, w0) && w0.val@ == TokenVal::Punc('}'),
                good ==> first,
                good == empty_match_next(old(self).tokens),
                forall|i: int, j: int|
                    0 <= i < arms@.len() && 0 <= j < arms@[i].possibilities@.len()
                        ==> pattern_ok(#[trigger] arms@[i].possibilities@[j]),
                parsed(*old(self), *self),
                self.parsed_main == old(self).parsed_main,
                left(*self) < left(*old(self)),
            decreases left(*self),
        {
            proof {
                if first && good {
                    lemma_peek_finds(f2, self.tokens, w0);
                }
                first = false;
            }
            assert(!good);
            let ghost iter_start = left(*self);
            let match_arm_start = self.tokens.input.loc();
            let mut possibilities: Vec<ASTMatchArmExpressions> = Vec::new();
            match self.parse_match_arm_exp() {
                Ok(p) => possibilities.push(p),
                Err(e) => return Err(e),
            }
            if self.next_is_op("|") {
                self.bump();
                while !self.next_is_op("=>") && !self.next_is_kw("if")
                    invariant
                        !empty_match_next(old(self).tokens),
                        forall|j: int|
                            0 <= j < possibilities@.len() ==> pattern_ok(
                                #[trigger] possibilities@[j],
                            ),
                        parsed(*old(self), *self),
                        self.parsed_main == old(self).parsed_main,
                        left(*self) < iter_start,
                        iter_start < left(*old(self)),
                    decreases left(*self),
                {
                    match self.parse_match_arm_exp() {
                        Ok(p) => possibilities.push(p),
                        Err(e) => return Err(e),
                    }
                    if self.next_is_op("|") {
                        self.bump();
                    }
                }
            }
            let guard = if self.next_is_kw("if") {
                self.bump();
                match self.parse_expression() {
                    Ok(Some(exp)) => Some(exp),
                    Ok(None) => {
                        return Err(err1(DiagnosticId::Expected, self.tokens.range_here(), "expression"));
                    },
                    Err(e) => return Err(e),
                }
            } else {
                None
            };
            match self.expect(TokenType::Op(to_owned_string("=>")), None) {
                Ok(_) => {},
                Err(e) => return Err(e),
            }
            let body = match self.parse_expression() {
                Ok(Some(exp)) => exp,
                Ok(None) => {
                    return Err(err1(DiagnosticId::Expected, self.tokens.range_here(), "expression"));
                },
                Err(e) => return Err(e),
            };
            if self.next_is_punc(',') {
                self.bump();
            }
            arms.push(
                ASTMatchArm {
                    guard,
                    possibilities,
                    body,
                    range: match_arm_start.end(&self.tokens.last_loc),
                },
            );
        }
        proof {
            if good {
                lemma_peek_finds(f2, self.tokens, w0);
                assert(next_token(self.tokens, self.tokens.current->0));
            }
        }
        match self.expect(TokenType::Punc('}'), None) {
            Ok(_) => {},
            Err(e) => return Err(e),
        }
        self.is_last_block = true;
        Ok(
            ASTExpression::Match(
                ASTMatch {
                    arms,
                    range: trange.end_with(&self.tokens.last_loc),
                    expression: Box::new(to_get_matched),
                },
            ),
        )
    }
}


impl Parser {
    /// Reads a top-level statement: `struct`, `enum`, `type`, `main` (only
    /// once), `static`, `export`, `import`, `impl`, or a `#meta` statement.
    /// Anything else is reported after skipping the rest of its line.
    #[verifier::rlimit(80)]
    fn parse_statement(&mut self) -> (r: LazyResult<ASTStatement>)
        requires
            parser_ok(*old(self)),
        ensures
            parsed(*old(self), *final(self)),
            r is Ok ==> left(*final(self)) < left(*old(self)),
            old(self).parsed_main ==> final(self).parsed_main,
            r is Ok && declares_main(r->Ok_0) ==> !old(self).parsed_main && final(self).parsed_main,
            r is Ok && !declares_main(r->Ok_0) ==> final(self).parsed_main == old(self).parsed_main,
            r matches Ok(ASTStatement::Export(e)) ==> !(*e.value is Main),
            r matches Ok(ASTStatement::Static(s)) ==> s.typings matches Some(t) ==> t.entries@.len()
                == 1,
            forall|t: Token, u: Token, w: Token|
                #[trigger] then_two(old(self).tokens, t, u, w) && t.val@ == TokenVal::Kw("main"@)
                    && u.val@ == TokenVal::Punc('{') && w.val@ == TokenVal::Punc('}')
                    && !old(self).parsed_main ==> (r matches Ok(ASTStatement::Main(m))
                    && m.expression.elements@.len() == 0),
            (exists|t: Token| #[trigger]
                next_token(old(self).tokens, t) && t.val@ == TokenVal::Kw("main"@))
                && old(self).parsed_main ==> (r is Err && error_is(
                r->Err_0,
                DiagnosticId::ManyEntries,
                Seq::empty(),
                Range { start: old(self).tokens.input.spec_loc(), end: final(self).tokens.last_loc },
            )),
            forall|t: Token, u: Token, w: Token|
                #[trigger] then_two(old(self).tokens, t, u, w) && t.val@ == TokenVal::Kw("type"@)
                    && u.val@ is Var ==> (r matches Ok(ASTStatement::Type(x)) ==> (x.typings is Some
                    <==> w.val@ == TokenVal::Op("<"@))),
            statement_read(*old(self), *final(self), r),
        decreases left(*old(self)), 11nat,
    {
        let ghost good = empty_main_next(old(self).tokens);
        let ghost (t0, u0, w0) = choose|t: Token, u: Token, w: Token|
            #[trigger] then_two(old(self).tokens, t, u, w) && t.val@ == TokenVal::Kw("main"@) && u.val@
                == TokenVal::Punc('{') && w.val@ == TokenVal::Punc('}');
        let range = self.tokens.input.loc();
        let token = match self.tokens.consume() {
            Some(t) => t,
            None => {
                proof {
                    assert(lex_read(old(self).tokens, self.tokens, None));
                    assert forall|t: Token| !#[trigger] next_token(old(self).tokens, t) by {
                        if next_token(old(self).tokens, t) {
                            lemma_next_or_none(old(self).tokens, t);
                        }
                    }
                    if good {
                        let b = choose|b: Tokenizer| #[trigger]
                            taken(old(self).tokens, b, t0) && then_token(b, u0, w0);
                        lemma_taken_unique(old(self).tokens, old(self).tokens, b, b, t0, t0);
                        lemma_next_or_none(old(self).tokens, t0);
                        assert(lex_read(old(self).tokens, self.tokens, None));
                    }
                }
                return Err(err0(DiagnosticId::UnexpectedEof, self.tokens.range_here()));
            },
        };
        let ghost m1 = self.tokens;
        proof {
            reveal_strlit("main");
            reveal_strlit("struct");
            reveal_strlit("enum");
            reveal_strlit("type");
            assert(("main"@)[0] != ("struct"@)[0]);
            assert(("main"@)[0] != ("enum"@)[0]);
            assert(("main"@)[0] != ("type"@)[0]);
            lemma_taken_unique(old(self).tokens, old(self).tokens, m1, m1, token, token);
            assert forall|t: Token, u: Token, w: Token| #[trigger]
                then_two(old(self).tokens, t, u, w) implies then_token(m1, u, w) && t.val@
                == token.val@ by {
                let b = choose|b: Tokenizer| #[trigger] taken(old(self).tokens, b, t) && then_token(b, u, w);
                lemma_taken_unique(old(self).tokens, old(self).tokens, m1, b, token, t);
                lemma_reading_then(b, m1, u, w);
            }
            assert forall|t: Token| #[trigger] next_token(old(self).tokens, t) implies t.val@
                == token.val@ by {
                lemma_next_token_unique(old(self).tokens, old(self).tokens, t, token);
            }
            if good {
                let b = choose|b: Tokenizer| #[trigger]
                    taken(old(self).tokens, b, t0) && then_token(b, u0, w0);
                lemma_taken_unique(old(self).tokens, old(self).tokens, m1, b, token, t0);
                lemma_reading_then(b, m1, u0, w0);
                let c = choose|c: Tokenizer| #[trigger] taken(m1, c, u0) && next_token(c, w0);
                lemma_taken_unique(m1, m1, c, c, u0, u0);
                reveal_strlit("main");
                reveal_strlit("struct");
                reveal_strlit("enum");
                reveal_strlit("type");
                assert(("main"@)[0] != ("struct"@)[0]);
                assert(("main"@)[0] != ("enum"@)[0]);
                assert(("main"@)[0] != ("type"@)[0]);
            }
        }
        let trange = token.range;
        match token.val {
            TokenType::Kw(keyword) => {
                if str_eq(keyword.as_str(), "struct") {
                    let name = match self.parse_varname(true, true, false, false) {
                        Ok(n) => n,
                        Err(e) => return Err(e),
                    };
                    let e = err1(DiagnosticId::Expected, self.tokens.range_here(), "start of struct fields");
                    match self.expect(TokenType::Punc('{'), Some(e)) {
                        Ok(_) => {},
                        Err(e) => return Err(e),
                    }
                    let fields = match self.parse_typing_pair_list(false, true, false, true, false, '}') {
                        Ok(f) => f,
                        Err(e) => return Err(e),
                    };
                    Ok(
                        ASTStatement::Struct(
                            ASTStruct {
                                name: name.0,
                                typings: name.1,
                                fields,
                                range: range.end(&self.tokens.last_loc),
                            },
                        ),
                    )
                } else if str_eq(keyword.as_str(), "enum") {
                    let name = match self.parse_varname(true, true, false, false) {
                        Ok(n) => n,
                        Err(e) => return Err(e),
                    };
                    let e = err1(DiagnosticId::Expected, self.tokens.range_here(), "start of enum fields");
                    match self.expect(TokenType::Punc('{'), Some(e)) {
                        Ok(_) => {},
                        Err(e) => return Err(e),
                    }
                    let values = match self.parse_typing_pair_list(true, false, false, false, true, '}') {
                        Ok(f) => f,
                        Err(e) => return Err(e),
                    };
                    Ok(
                        ASTStatement::EnumDeclaration(
                            ASTEnumDeclaration {
                                name: name.0,
                                values,
                                typings: name.1,
                                range: range.end(&self.tokens.last_loc),
                            },
                        ),
                    )
                } else if str_eq(keyword.as_str(), "type") {
                    let name = match self.parse_varname(true, true, false, false) {
                        Ok(n) => n,
                        Err(e) => return Err(e),
                    };
                    match self.expect(TokenType::Op(to_owned_string("=")), None) {
                        Ok(_) => {},
                        Err(e) => return Err(e),
                    }
                    let typing = match self.parse_typing(false, false, true) {
                        Ok(ty) => ty,
                        Err(e) => return Err(e),
                    };
                    Ok(
                        ASTStatement::Type(
                            ASTType {
                                name: name.0,
                                typings: name.1,
                                value: typing,
                                range: range.end(&self.tokens.last_loc),
                            },
                        ),
                    )
                } else if str_eq(keyword.as_str(), "main") {
                    if self.parsed_main {
                        return Err(err0(DiagnosticId::ManyEntries, range.end(&self.tokens.last_loc)));
                    }
                    proof {
                        if good {
                            assert(next_token(m1, u0));
                        }
                    }
                    match self.expect(TokenType::Punc('{'), None) {
                        Ok(_) => {},
                        Err(e) => return Err(e),
                    }
                    proof {
                        if good {
                            let x = choose|x: Token| x.val@ == TokenVal::Punc('{') && #[trigger] taken(
                                m1,
                                self.tokens,
                                x,
                            );
                            let b = choose|b: Tokenizer| #[trigger] taken(m1, b, u0) && next_token(b, w0);
                            lemma_taken_unique(m1, m1, self.tokens, b, x, u0);
                            lemma_reading_next(b, self.tokens, w0);
                        }
                    }
                    let exp = match self.parse_block(false) {
                        Ok(b) => b,
                        Err(e) => return Err(e),
                    };
                    self.parsed_main = true;
                    Ok(ASTStatement::Main(ASTMain { expression: exp, range: range.end(&self.tokens.last_loc) }))
                } else if str_eq(keyword.as_str(), "static") {
                    let varname = match self.parse_varname(true, false, false, false) {
                        Ok(n) => n,
                        Err(e) => return Err(e),
                    };
                    match self.expect(TokenType::Op(to_owned_string("=")), None) {
                        Ok(_) => {},
                        Err(e) => return Err(e),
                    }
                    let typings = match varname.1 {
                        Some(typing) => {
                            if typing.entries.len() != 1 {
                                return Err(err1(DiagnosticId::Expected, trange, "only one type"));
                            }
                            Some(typing)
                        },
                        None => None,
                    };
                    let exp = match self.parse_expression() {
                        Ok(Some(exp)) => exp,
                        Ok(None) => {
                            return Err(err1(DiagnosticId::Expected, self.tokens.range_here(), "initializor"));
                        },
                        Err(e) => return Err(e),
                    };
                    Ok(
                        ASTStatement::Static(
                            Box::new(
                                ASTStatic {
                                    typings,
                                    var: varname.0,
                                    value: exp,
                                    range: range.end(&self.tokens.last_loc),
                                },
                            ),
                        ),
                    )
                } else if str_eq(keyword.as_str(), "export") {
                    let value = match self.parse_statement() {
                        Ok(v) => v,
                        Err(e) => return Err(e),
                    };
                    if let ASTStatement::Main(_) = value {
                        return Err(err1(DiagnosticId::Unexpected, range.end(&self.tokens.last_loc), "main entry"));
                    }
                    Ok(ASTStatement::Export(ASTExport { value: Box::new(value), range: range.end(&self.tokens.last_loc) }))
                } else if str_eq(keyword.as_str(), "import") {
                    self.parse_import(range)
                } else if str_eq(keyword.as_str(), "impl") {
                    let typings = if self.next_is_op("<") {
                        self.bump();
                        match self.parse_typing_list(true, false, TokenType::Op(to_owned_string(">"))) {
                            Ok(l) => Some(l),
                            Err(e) => return Err(e),
                        }
                    } else {
                        None
                    };
                    let partial = match self.parse_mod_access_or_var_without_var(false, true) {
                        Ok(p) => p,
                        Err(e) => return Err(e),
                    };
                    match self.expect(TokenType::Kw(to_owned_string("for")), None) {
                        Ok(_) => {},
                        Err(e) => return Err(e),
                    }
                    let target = match self.parse_mod_access_or_var_without_var(false, true) {
                        Ok(p) => p,
                        Err(e) => return Err(e),
                    };
                    match self.expect(TokenType::Punc('{'), None) {
                        Ok(_) => {},
                        Err(e) => return Err(e),
                    }
                    let fields = match self.parse_typing_pair_list(false, true, false, true, false, '}') {
                        Ok(f) => f,
                        Err(e) => return Err(e),
                    };
                    Ok(
                        ASTStatement::Impl(
                            ASTImpl {
                                partial,
                                target,
                                typings,
                                fields,
                                range: range.end(&self.tokens.last_loc),
                            },
                        ),
                    )
                } else {
                    self.tokens.input.skip_line();
                    let text = TokenType::Kw(keyword).to_display_string();
                    Err(err2(DiagnosticId::ExpectedFound, trange, "statement", text.as_str()))
                }
            },
            TokenType::Punc('#') => {
                let name = match self.parse_varname(false, false, false, true) {
                    Ok(n) => n.0,
                    Err(e) => return Err(e),
                };
                let mut args: Vec<TokenType> = Vec::new();
                if self.next_is_punc('(') {
                    self.bump();
                    let mut is_first = true;
                    while !self.next_is_punc(')')
                        invariant
                            !empty_main_next(old(self).tokens),
                            !(exists|t: Token| #[trigger]
                                next_token(old(self).tokens, t) && t.val@ == TokenVal::Kw("main"@)),
                            parsed(*old(self), *self),
                            self.parsed_main == old(self).parsed_main,
                            left(*self) < left(*old(self)),
                        decreases left(*self),
                    {
                        if !is_first {
                            match self.expect(TokenType::Punc(','), None) {
                                Ok(_) => {},
                                Err(e) => return Err(e),
                            }
                        }
                        if self.next_is_punc(')') {
                            break;
                        }
                        match self.tokens.consume() {
                            Some(t) => args.push(t.val),
                            None => {},
                        }
                        is_first = false;
                    }
                    match self.expect(TokenType::Punc(')'), None) {
                        Ok(_) => {},
                        Err(e) => return Err(e),
                    }
                }
                let target = match self.parse_statement() {
                    Ok(s) => s,
                    Err(e) => return Err(e),
                };
                Ok(
                    ASTStatement::Meta(
                        ASTMeta {
                            name,
                            args,
                            target: Box::new(target),
                            range: trange.end_with(&self.tokens.last_loc),
                        },
                    ),
                )
            },
            other => {
                self.tokens.input.skip_line();
                let text = other.to_display_string();
                Err(err2(DiagnosticId::ExpectedFound, trange, "statement", text.as_str()))
            },
        }
    }

    /// Reads an import after the keyword: `{ a, b as c }` or `*`, then
    /// `from "path"` and an optional `as name`.
    #[verifier::rlimit(40)]
    fn parse_import(&mut self, range: LoC) -> (r: LazyResult<ASTStatement>)
        requires
            parser_ok(*old(self)),
        ensures
            parsed(*old(self), *final(self)),
            final(self).parsed_main == old(self).parsed_main,
            r is Ok ==> left(*final(self)) < left(*old(self)),
            r is Ok ==> r->Ok_0 is Import,
            forall|t: Token, u: Token, w: Token, v: Token|
                #[trigger] then_three(old(self).tokens, t, u, w, v) && t.val@ == TokenVal::Op("*"@)
                    && u.val@ == TokenVal::Kw("from"@) && w.val@ is Str && !starts_suffix(v.val@)
                    && v.val@ != TokenVal::Kw("as"@) ==> (r matches Ok(ASTStatement::Import(i))
                    && i.thing is All && i.path.value@ == w.val@->Str_0 && i.path.range == w.range
                    && i._as is None),
        decreases left(*old(self)), 10nat,
    {
        let ghost good = exists|t: Token, u: Token, w: Token, v: Token|
            #[trigger] then_three(old(self).tokens, t, u, w, v) && t.val@ == TokenVal::Op("*"@) && u.val@
                == TokenVal::Kw("from"@) && w.val@ is Str && !starts_suffix(v.val@) && v.val@
                != TokenVal::Kw("as"@);
        let ghost (t0, u0, w0, v0) = choose|t: Token, u: Token, w: Token, v: Token|
            #[trigger] then_three(old(self).tokens, t, u, w, v) && t.val@ == TokenVal::Op("*"@) && u.val@
                == TokenVal::Kw("from"@) && w.val@ is Str && !starts_suffix(v.val@) && v.val@
                != TokenVal::Kw("as"@);
        proof {
            if good {
                assert forall|f: Tokenizer| #[trigger]
                    peeked(old(self).tokens, f) implies f.current is Some && f.current->0.val@
                    == TokenVal::Op("*"@) && then_three(f, f.current->0, u0, w0, v0) by {
                    lemma_peek_then_three(old(self).tokens, f, t0, u0, w0, v0);
                }
            }
        }
        let path_start = self.tokens.input.loc();
        let item = if self.next_is_punc('{') {
            self.bump();
            let mut items: Vec<ASTImportItem> = Vec::new();
            loop
                invariant
                    !good,
                    good == exists|t: Token, u: Token, w: Token, v: Token|
                        #[trigger] then_three(old(self).tokens, t, u, w, v) && t.val@ == TokenVal::Op(
                            "*"@,
                        ) && u.val@ == TokenVal::Kw("from"@) && w.val@ is Str && !starts_suffix(v.val@)
                            && v.val@ != TokenVal::Kw("as"@),
                    parsed(*old(self), *self),
                    self.parsed_main == old(self).parsed_main,
                decreases left(*self),
            {
                let next = self.peek_val();
                match next {
                    Some((TokenType::Punc('}'), _)) => break,
                    None => break,
                    Some(_) => {},
                }
                let text = match self.parse_varname(false, false, false, false) {
                    Ok(v) => v.0,
                    Err(e) => return Err(e),
                };
                if self.next_is_kw("as") {
                    self.bump();
                    let alias = match self.parse_varname(false, false, false, false) {
                        Ok(v) => v.0,
                        Err(e) => return Err(e),
                    };
                    let alias_end = alias.range.end;
                    items.push(
                        ASTImportItem {
                            name: text.value,
                            _as: Some(alias),
                            range: Range { start: text.range.start, end: alias_end },
                        },
                    );
                } else {
                    let trange = text.range;
                    items.push(ASTImportItem { name: text.value, range: trange, _as: None });
                }
                if self.next_is_punc('}') {
                    self.bump();
                    break;
                }
                match self.expect(TokenType::Punc(','), None) {
                    Ok(_) => {},
                    Err(e) => return Err(e),
                }
            }
            ASTImportThing::Items(items)
        } else if self.next_is_op("*") {
            let ghost m0 = self.tokens;
            self.bump();
            proof {
                if good {
                    lemma_then_three_take(m0, self.tokens, m0.current->0, m0.current->0, u0, w0, v0);
                    lemma_then_two_first(self.tokens, u0, w0, v0);
                    let c = choose|c: Tokenizer| #[trigger] taken(self.tokens, c, u0) && next_token(c, w0);
                    lemma_taken_unique(self.tokens, self.tokens, c, c, u0, u0);
                }
            }
            ASTImportThing::All
        } else {
            return Err(
                err1(
                    DiagnosticId::Expected,
                    self.tokens.range_here(),
                    "either an import deconstructor or a star (*)",
                ),
            );
        };
        let ghost m1 = self.tokens;
        match self.expect(TokenType::Kw(to_owned_string("from")), None) {
            Ok(_) => {},
            Err(e) => return Err(e),
        }
        proof {
            if good {
                let x = choose|x: Token| x.val@ == TokenVal::Kw("from"@) && #[trigger] taken(
                    m1,
                    self.tokens,
                    x,
                );
                lemma_then_two_step(m1, self.tokens, x, u0, w0, v0);
            }
        }
        let path = match self.parse_expression_part(false) {
            Ok(Some(ASTExpression::Str(s))) => s,
            Ok(_) => {
                return Err(err1(DiagnosticId::Expected, range.end(&path_start), "path to module"));
            },
            Err(e) => return Err(e),
        };
        proof {
            if good {
                assert forall|f: Tokenizer| #[trigger]
                    peeked(self.tokens, f) implies f.current is Some && f.current->0.val@ == v0.val@ by {
                }
            }
        }
        let as_binding = if self.next_is_kw("as") {
            self.bump();
            match self.parse_varname(false, false, false, false) {
                Ok(v) => Some(v.0),
                Err(e) => return Err(e),
            }
        } else {
            None
        };
        Ok(
            ASTStatement::Import(
                ASTImport { path, thing: item, _as: as_binding, range: range.end(&self.tokens.last_loc) },
            ),
        )
    }

    /// Reads statements until the input ends, collecting the statements and
    /// the errors. Reading stops early when a statement neither succeeds nor
    /// moves the lexer (a lone `/` at the end of the input).
    pub fn parse(&mut self) -> (r: (Vec<ASTStatement>, Vec<BaseError>))
        requires
            parser_ok(*old(self)),
        ensures
            parsed(*old(self), *final(self)),
            forall|i: int, j: int|
                0 <= i < j < r.0@.len() ==> !(declares_main(#[trigger] r.0@[i]) && declares_main(
                    #[trigger] r.0@[j],
                )),
            old(self).parsed_main ==> forall|i: int|
                0 <= i < r.0@.len() ==> !declares_main(#[trigger] r.0@[i]),
            old(self).tokens.input.at_eof() ==> r.0@.len() == 0 && r.1@.len() == 0 && *final(self) == *old(self),
            !old(self).tokens.input.at_eof() ==> r.0@.len() + r.1@.len() >= 1,
            final(self).tokens.input.at_eof() || r.1@.len() > 0,
            exists|states: Seq<Parser>, results: Seq<LazyResult<ASTStatement>>|
                #[trigger] reads_in_order(states, results, *old(self), *final(self)) && r.0@ == read_statements(results)
                    && r.1@ == read_errors(results),
    {
        let mut res: Vec<ASTStatement> = Vec::new();
        let mut errors: Vec<BaseError> = Vec::new();
        let ghost mut states: Seq<Parser> = seq![*self];
        let ghost mut results: Seq<LazyResult<ASTStatement>> = Seq::empty();
        while !self.tokens.input.is_eof()
            invariant
                reads_in_order(states, results, *old(self), *self),
                res@ == read_statements(results),
                errors@ == read_errors(results),
                parsed(*old(self), *self),
                old(self).tokens.input.at_eof() ==> res@.len() == 0 && errors@.len() == 0,
                res@.len() + errors@.len() == 0 ==> *self == *old(self),
                old(self).parsed_main ==> self.parsed_main,
                forall|i: int| 0 <= i < res@.len() && declares_main(#[trigger] res@[i]) ==> !old(self).parsed_main && self.parsed_main,
                forall|i: int, j: int|
                    0 <= i < j < res@.len() ==> !(declares_main(#[trigger] res@[i]) && declares_main(
                        #[trigger] res@[j],
                    )),
            ensures
                self.tokens.input.at_eof() || errors@.len() > 0,
                reads_in_order(states, results, *old(self), *self),
                res@ == read_statements(results),
                errors@ == read_errors(results),
            decreases left(*self),
        {
            let before_pos = self.tokens.input.loc().pos;
            let before_held = self.tokens.current.is_some();
            let ghost pre = *self;
            let out = self.parse_statement();
            proof {
                let rs = results.push(out);
                let ss = states.push(*self);
                assert(rs.drop_last() =~= results);
                assert forall|i: int| 0 <= i < rs.len() implies #[trigger] statement_read(
                    ss[i],
                    ss[i + 1],
                    rs[i],
                ) by {
                    if i < results.len() {
                        assert(ss[i] == states[i] && ss[i + 1] == states[i + 1] && rs[i] == results[i]);
                    }
                }
                results = rs;
                states = ss;
            }
            match out {
                Ok(stmt) => res.push(stmt),
                Err(error) => {
                    errors.push(error);
                    let after_pos = self.tokens.input.loc().pos;
                    let after_held = self.tokens.current.is_some();
                    if after_pos == before_pos && after_held == before_held {
                        break;
                    }
                },
            }
        }
        proof {
            assert(reads_in_order(states, results, *old(self), *self));
        }
        (res, errors)
    }
}

} // verus!
