use lazy::tokenizer::{TokenType, Tokenizer};

fn first_token(src: &str) -> TokenType {
    let mut t = Tokenizer::new(src, String::from("test.lazy"));
    t.consume().expect("a token").val
}

fn int_of(src: &str) -> i32 {
    match first_token(src) {
        TokenType::Int(i) => i,
        other => panic!("expected an integer, got {}", other.to_display_string()),
    }
}

#[test]
fn binary_literal() {
    assert_eq!(int_of("0b010101"), 21);
}

#[test]
fn octal_literal() {
    assert_eq!(int_of("0o03621623"), 992147);
}

#[test]
fn hex_literal() {
    assert_eq!(int_of("0x0123ABCd"), 19114957);
}

#[test]
fn underscores_are_ignored() {
    assert_eq!(int_of("100_00_00"), 1000000);
    assert_eq!(int_of("1000000"), 1000000);
}

#[test]
fn minute_suffix() {
    assert_eq!(int_of("1m"), 60000);
}
