use lazy::diagnostics::{format_diagnostic, DiagnosticId, Diagnostics};
use lazy::errors::{LoC, Range};
use lazy::token_error::{Error, ErrorType};
use lazy::input_parser::{InputParser, InputSequence};
use lazy::parser_error::ParserErrorType;
use lazy::tokenizer::{TokenType, Tokenizer};

fn tokens(src: &str) -> (Vec<TokenType>, Tokenizer) {
    let mut t = Tokenizer::new(src, String::from("lex.lazy"));
    let mut out = Vec::new();
    while let Some(tok) = t.consume() {
        out.push(tok.val);
    }
    (out, t)
}

fn texts(src: &str) -> Vec<String> {
    tokens(src).0.iter().map(|t| t.to_display_string()).collect()
}

#[test]
fn words_keywords_and_literals() {
    assert_eq!(
        texts("let x = true; none main"),
        vec![
            "keyword let",
            "identifier x",
            "operator =",
            "boolean true",
            "punctuation ;",
            "none",
            "keyword main"
        ]
    );
}

#[test]
fn operators_are_read_greedily_but_stop_after_question_and_greater() {
    assert_eq!(texts("a += b"), vec!["identifier a", "operator +=", "identifier b"]);
    assert_eq!(texts("a?.b"), vec!["identifier a", "operator ?", "operator .", "identifier b"]);
    assert_eq!(texts("x->y"), vec!["identifier x", "operator ->", "identifier y"]);
    assert_eq!(texts("a >= b"), vec!["identifier a", "operator >", "operator =", "identifier b"]);
}

#[test]
fn diamond_operator_is_refused() {
    let (toks, t) = tokens("a <> b");
    assert_eq!(toks[1].to_display_string(), "operator <>");
    assert_eq!(t.errors.len(), 1);
    assert_eq!(t.errors[0].msg, "Unexpected operator <>.");
}

#[test]
fn strings_and_chars() {
    assert_eq!(texts("\"hello world\" 'c'"), vec!["string hello world", "char c"]);
}

#[test]
fn unterminated_string_is_reported() {
    let (toks, t) = tokens("\"abc");
    assert_eq!(toks[0].to_display_string(), "string abc");
    assert_eq!(t.errors.len(), 1);
    assert_eq!(t.errors[0].msg, "Expected end of string.");
}

#[test]
fn char_literal_with_two_characters_is_reported() {
    let (toks, t) = tokens("'ab'");
    assert_eq!(toks[0].to_display_string(), "char a");
    assert_eq!(t.errors[0].msg, "Expected character to contain only one codepoint.");
}

#[test]
fn comments_are_skipped() {
    assert_eq!(
        texts("a // a comment\n /* block\n comment */ b"),
        vec!["identifier a", "identifier b"]
    );
}

#[test]
fn invalid_and_confusable_characters() {
    let (toks, t) = tokens("@");
    assert!(toks.is_empty());
    assert_eq!(t.errors[0].msg, "Invalid character @.");
    let (_, t2) = tokens("\u{37e}");
    assert_eq!(
        t2.errors[0].msg,
        "Found \u{37e} (Greek question mark), which is very similar to ; (semicolon)."
    );
}

#[test]
fn floats_keep_their_digits_and_unit() {
    match &tokens("1.5m").0[0] {
        TokenType::Float(f) => {
            assert_eq!(f.digits, "1.5");
            assert_eq!(f.scale, 60000);
        }
        other => panic!("not a float: {}", other.to_display_string()),
    }
}

#[test]
fn second_decimal_point_is_reported() {
    let (_, t) = tokens("1.2.3");
    assert_eq!(
        t.errors[0].msg,
        "Floating points cannot contain more than one decimal point."
    );
}

#[test]
fn range_operator_ends_a_number() {
    assert_eq!(texts("0..5"), vec!["integer 0", "operator ..", "integer 5"]);
}

#[test]
fn time_suffixes() {
    assert_eq!(texts("2s 1h 1d"), vec!["integer 2000", "integer 3600000", "integer 86400000"]);
}

#[test]
fn day_suffix_adds_no_error() {
    let mut t = Tokenizer::new("1d;", String::from("f"));
    assert!(matches!(t.consume().unwrap().val, TokenType::Int(86400000)));
    assert!(t.errors.is_empty());
    let (toks, t) = tokens("1s 1m 1h 1d");
    let ints: Vec<i32> = toks
        .iter()
        .map(|v| match v {
            TokenType::Int(i) => *i,
            _ => -1,
        })
        .collect();
    assert_eq!(ints, vec![1000, 60000, 3600000, 86400000]);
    assert!(t.errors.is_empty());
}

#[test]
fn binary_digit_out_of_range_is_reported() {
    let (toks, t) = tokens("0b12");
    assert_eq!(toks[0].to_display_string(), "integer 12");
    assert_eq!(t.errors[0].msg, "Invalid digit.");
}

#[test]
fn lines_and_columns_are_tracked() {
    let mut p = InputParser::new("ab\ncd");
    p.consume();
    p.consume();
    assert_eq!((p.loc().line, p.loc().col), (1, 2));
    p.consume();
    assert_eq!((p.loc().line, p.loc().col, p.loc().pos), (2, 0, 3));
    assert_eq!(p.peek(1), Some('d'));
    assert!(!p.is_eof());
}

#[test]
fn skip_line_moves_past_the_newline() {
    let mut p = InputParser::new("abc\ndef");
    p.skip_line();
    assert_eq!(p.loc().line, 2);
    assert_eq!(p.consume(), Some('d'));
}

#[test]
fn diagnostics_fill_placeholders_in_order() {
    let d = Diagnostics::get(DiagnosticId::ExpectedFound);
    assert_eq!(d.code, 1009);
    assert_eq!(format_diagnostic(&d, vec!["a", "b"]), "Expected a, but found b.");
    assert_eq!(format_diagnostic(&d, vec![]), "Expected $, but found $.");
}

#[test]
fn parser_error_messages() {
    let e = ParserErrorType::expected_found(String::from("x"), String::from("y"));
    assert_eq!(e.message(), "Expected x, but found y");
    assert_eq!(ParserErrorType::TooMuchTypes(3).message(), "Too much typings provided, expected only 3");
}

#[test]
fn lexer_error_sentences() {
    let here = LoC { line: 1, col: 0, pos: 0 };
    let range = Range { start: here, end: here };
    let e = Error { range, e_type: ErrorType::ExpectedFound(String::from("a"), String::from("b")) };
    assert_eq!(e.to_string(), "Expected a, but found b");
    let e = Error { range, e_type: ErrorType::InvalidCharacter('@') };
    assert_eq!(e.to_string(), "Invalid character @");
    let e = Error { range, e_type: ErrorType::Custom(String::from("oops")) };
    assert_eq!(e.to_string(), "oops");
}

#[test]
fn skip_line_without_newline_reaches_the_end() {
    let mut p = InputParser::new("ab\ncd");
    p.skip_line();
    assert_eq!(p.loc().line, 2);
    assert_eq!(p.loc().col, 0);
    assert_eq!(p.peek(0), Some('c'));
    p.skip_line();
    assert!(p.is_eof());
    assert_eq!(p.loc().pos, 5);
    assert_eq!(p.loc().col, 2);
}

#[test]
fn location_follows_the_newlines_consumed() {
    let src = "a\nbc\n\nd";
    let mut p = InputParser::new(src);
    for k in 0..src.chars().count() {
        let t: String = src.chars().take(k).collect();
        let l = p.loc();
        assert_eq!(l.pos, k);
        assert_eq!(l.line, 1 + t.matches('\n').count());
        let col = match t.rfind('\n') {
            Some(i) => t.len() - i - 1,
            None => t.len(),
        };
        assert_eq!(l.col, col);
        p.consume();
    }
}
