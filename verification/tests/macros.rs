use lazy::macro_params::MacroParser;
use lazy::macros::{Macro, MacroArg, MacroRepetitionKinds, MacroToken};
use lazy::tokenizer::{TokenType, Tokenizer};

fn lexer(src: &str) -> Tokenizer {
    Tokenizer::new(src, String::from("m.lazy"))
}

#[test]
fn macro_without_arms() {
    let mut t = lexer("}");
    let m = Macro::parse(&mut t).expect("a macro");
    assert_eq!(m.0.len(), 0);
    assert!(t.errors.is_empty());
}

#[test]
fn macro_arm_with_exact_characters() {
    let mut t = lexer("{ab => x }");
    let m = Macro::parse(&mut t).expect("a macro");
    assert_eq!(m.0.len(), 1);
    let arm = &m.0[0];
    assert_eq!(arm.args.len(), 2);
    assert!(matches!(arm.args[0], MacroArg::Exact('a')));
    assert!(matches!(arm.args[1], MacroArg::Exact('b')));
    assert_eq!(arm.body.len(), 1);
    match &arm.body[0] {
        MacroToken::Regular(tok) => assert!(matches!(&tok.val, TokenType::Var(v) if v == "x")),
        _ => panic!("expected a plain token"),
    }
    assert!(t.errors.is_empty());
}

#[test]
fn macro_body_repetition() {
    let mut t = lexer("{x => +,(a) }");
    let m = Macro::parse(&mut t).expect("a macro");
    let arm = &m.0[0];
    assert_eq!(arm.body.len(), 1);
    match &arm.body[0] {
        MacroToken::Repetition(kind, sep, inner) => {
            assert!(matches!(kind, MacroRepetitionKinds::OneOrMore));
            assert!(matches!(sep.val, TokenType::Punc(',')));
            assert_eq!(inner.len(), 1);
            assert!(matches!(&inner[0], MacroToken::Regular(tok) if matches!(&tok.val, TokenType::Var(v) if v == "a")));
        }
        _ => panic!("expected a repetition"),
    }
}

#[test]
fn macro_repetition_needs_a_separator() {
    let mut t = lexer("{x => +( }");
    assert!(Macro::parse(&mut t).is_none());
    assert_eq!(t.errors.last().unwrap().msg, "Expected separator, but found start of repetition.");
}

#[test]
fn macro_parameter_type_must_be_known() {
    let mut t = lexer(":$a:expr => {}");
    assert!(Macro::parse(&mut t).is_none());
    assert_eq!(t.errors.last().unwrap().msg, "Invalid macro parameter type .");
}

#[test]
fn macro_declaration_needs_a_name() {
    let mut p = MacroParser::new();
    let mut t = lexer("5(a) {");
    assert!(p.parse_macro(&mut t).is_none());
    assert_eq!(t.errors.len(), 1);
    assert_eq!(t.errors[0].msg, "Expected Macro name.");
}

#[test]
fn macro_declaration_repeat_needs_separator() {
    let mut p = MacroParser::new();
    let mut t = lexer("m(a, b*) {");
    assert!(p.parse_macro(&mut t).is_none());
    assert_eq!(t.errors.len(), 1);
    assert_eq!(t.errors[0].msg, "Expected Separator before repeat operator.");
}

#[test]
fn macro_declaration_allows_one_repeat() {
    let mut p = MacroParser::new();
    let mut t = lexer("m(a,* b,+) {");
    assert!(p.parse_macro(&mut t).is_none());
    assert_eq!(t.errors.len(), 1);
    assert_eq!(t.errors[0].msg, "Expected Multiple repeat parameters are not allowed..");
}

#[test]
fn macro_declaration_well_formed() {
    let mut p = MacroParser::new();
    let mut t = lexer("m(a, b;*) {");
    assert!(p.parse_macro(&mut t).is_none());
    assert!(t.errors.is_empty());
}
