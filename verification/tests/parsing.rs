use lazy::ast::{ASTExpression, ASTMatchArmExpressions, ASTStatement};
use lazy::errors::BaseError;
use lazy::parser::Parser;

fn parse(src: &str) -> (Vec<ASTStatement>, Vec<BaseError>) {
    let mut p = Parser::new(src, String::from("main.lazy"));
    p.parse()
}

fn main_body(src: &str) -> Vec<ASTExpression> {
    let (stmts, errs) = parse(src);
    assert!(errs.is_empty(), "unexpected errors: {:?}", errs.iter().map(|e| e.msg.clone()).collect::<Vec<_>>());
    match stmts.into_iter().next() {
        Some(ASTStatement::Main(m)) => m.expression.elements,
        _ => panic!("expected a main entry"),
    }
}

#[test]
fn iterator_shorthand_starts_at_zero() {
    let body = main_body("main { ..5; }");
    match &body[0] {
        ASTExpression::Iterator(it) => {
            assert!(matches!(*it.start, ASTExpression::Int(ref i) if i.value == 0));
            assert!(matches!(*it.end, ASTExpression::Int(ref i) if i.value == 5));
            assert!(!it.inclusive);
        }
        _ => panic!("expected an iterator"),
    }
}

#[test]
fn multiplication_binds_tighter_than_addition() {
    let body = main_body("main { 1 + 2 * 3; }");
    match &body[0] {
        ASTExpression::Binary(b) => {
            assert_eq!(b.op, "+");
            assert!(matches!(*b.left, ASTExpression::Int(ref i) if i.value == 1));
            match &*b.right {
                ASTExpression::Binary(inner) => assert_eq!(inner.op, "*"),
                _ => panic!("expected 2 * 3 on the right"),
            }
        }
        _ => panic!("expected a binary expression"),
    }
}

#[test]
fn constants_need_an_initializer() {
    let (_, errs) = parse("main { const a; }");
    assert_eq!(errs[0].msg, "Constant variables must have an initializer.");
}

#[test]
fn only_one_main_entry() {
    let (stmts, errs) = parse("main { }\nmain { }");
    assert_eq!(stmts.len(), 1);
    assert_eq!(errs[0].msg, "Too many entry points. There can be only one.");
}

#[test]
fn match_arms_accept_natural_literals() {
    let body = main_body("main { match a { 1..4 => 1, [1, 2, none] => 2, _ => 3 } }");
    match &body[0] {
        ASTExpression::Match(m) => {
            assert_eq!(m.arms.len(), 3);
            assert!(matches!(m.arms[0].possibilities[0], ASTMatchArmExpressions::Iterator(_)));
            assert!(matches!(m.arms[1].possibilities[0], ASTMatchArmExpressions::Tuple(_)));
            assert!(matches!(m.arms[2].possibilities[0], ASTMatchArmExpressions::Rest));
        }
        _ => panic!("expected a match"),
    }
}

#[test]
fn match_arms_refuse_unnatural_tuples() {
    let (_, errs) = parse("main { match a { [1, f(2)] => 1 } }");
    assert_eq!(errs[0].msg, "Expected natural tuple literal.");
}

#[test]
fn struct_with_modifiers() {
    let (stmts, errs) = parse("struct A { static const b: bool }");
    assert!(errs.is_empty());
    match &stmts[0] {
        ASTStatement::Struct(s) => {
            assert_eq!(s.name.value, "A");
            assert_eq!(s.fields.pairs.len(), 1);
            assert_eq!(s.fields.pairs[0].name, "b");
            assert_eq!(s.fields.pairs[0].modifiers.bits, 6);
        }
        _ => panic!("expected a struct"),
    }
}

#[test]
fn repeated_modifier_is_refused() {
    let (_, errs) = parse("struct A { const const b: bool }");
    assert_eq!(errs[0].msg, "The field is already const. Unnecessary modifier.");
}

#[test]
fn unknown_statement_is_reported() {
    let (_, errs) = parse("let x = 1;\n");
    assert_eq!(errs[0].msg, "Expected statement, but found keyword let.");
}

#[test]
fn export_of_main_is_refused() {
    let (_, errs) = parse("export main { }");
    assert_eq!(errs[0].msg, "Unexpected main entry.");
}

#[test]
fn imports() {
    let (stmts, errs) = parse("import { a, b as c } from \"./mod\"\nmain { }");
    assert!(errs.is_empty());
    match &stmts[0] {
        ASTStatement::Import(i) => {
            assert_eq!(i.path.value, "./mod");
            assert!(i._as.is_none());
        }
        _ => panic!("expected an import"),
    }
}

#[test]
fn template_literal_needs_an_expression() {
    let (_, errs) = parse("main { `plain`; }");
    assert_eq!(errs[0].msg, "Pointless template literls. Use normal string literals instead.");
    let body = main_body("main { `a ${b} c`; }");
    assert!(matches!(body[0], ASTExpression::TempStr(_)));
}

#[test]
fn module_paths_and_calls() {
    let body = main_body("main { Option::Some(1); f(1, 2)[0]; }");
    assert!(matches!(body[0], ASTExpression::ModAccess(_)));
    assert!(matches!(body[1], ASTExpression::IndexAccess(_)));
}

#[test]
fn statements_are_written_back_as_text() {
    let (stmts, errs) = parse("main { let a = 1 + 2; }");
    assert!(errs.is_empty());
    assert_eq!(stmts[0].to_display_string(), "main {\nlet a = 1 + 2\n \n}");
    let (types, errs) = parse("type T<A> = [A, B]");
    assert!(errs.is_empty());
    assert_eq!(types[0].to_display_string(), "type T<A> = [A, B]\n");
}

#[test]
fn template_literals_are_written_back_with_their_expressions() {
    let body = main_body("main { `a ${b} c`; }");
    assert_eq!(body[0].to_display_string(), "`a ${b} c`");
}

#[test]
fn empty_source_has_no_statements() {
    let (stmts, errs) = parse("");
    assert!(stmts.is_empty());
    assert!(errs.is_empty());
}

#[test]
fn char_literals_are_match_arm_patterns() {
    let body = main_body("main { match x { 'c' => 1 } }");
    match &body[0] {
        ASTExpression::Match(m) => {
            assert!(matches!(&m.arms[0].possibilities[0], ASTMatchArmExpressions::Char(c) if c.value == 'c'));
        }
        _ => panic!("expected a match"),
    }
}

#[test]
fn struct_fields_are_separated_by_commas() {
    let (stmts, errs) = parse("struct Person { name: str, age: int }");
    assert!(errs.is_empty(), "unexpected errors: {:?}", errs.iter().map(|e| e.msg.clone()).collect::<Vec<_>>());
    match &stmts[0] {
        ASTStatement::Struct(s) => {
            assert_eq!(s.fields.pairs.len(), 2);
            assert_eq!(s.fields.pairs[0].name, "name");
            assert_eq!(s.fields.pairs[1].name, "age");
        }
        _ => panic!("expected a struct"),
    }
}

#[test]
fn inclusive_range_shorthand_starts_at_zero() {
    let body = main_body("main { ..=10; }");
    match &body[0] {
        ASTExpression::Iterator(it) => {
            assert!(matches!(*it.start, ASTExpression::Int(ref i) if i.value == 0));
            assert!(matches!(*it.end, ASTExpression::Int(ref i) if i.value == 10));
            assert!(it.inclusive);
        }
        _ => panic!("expected an iterator"),
    }
}

#[test]
fn suffixes_nest_left_to_right() {
    let body = main_body("main { a.b(c); }");
    match &body[0] {
        ASTExpression::Call(c) => {
            assert_eq!(c.args.expressions.len(), 1);
            match &*c.target {
                ASTExpression::DotAccess(d) => {
                    assert_eq!(d.target.value, "b");
                    assert!(matches!(*d.value, ASTExpression::Var(ref v) if v.value == "a"));
                }
                _ => panic!("expected a member access"),
            }
        }
        _ => panic!("expected a call"),
    }
}

#[test]
fn subtraction_is_left_associative() {
    let body = main_body("main { 1 - 2 - 3; }");
    match &body[0] {
        ASTExpression::Binary(b) => {
            assert_eq!(b.op, "-");
            assert!(matches!(*b.right, ASTExpression::Int(ref i) if i.value == 3));
            assert!(matches!(*b.left, ASTExpression::Binary(_)));
        }
        _ => panic!("expected a binary expression"),
    }
}

#[test]
fn let_without_value_is_a_declaration() {
    let body = main_body("main { let a; }");
    match &body[0] {
        ASTExpression::Declare(d) => {
            assert!(!d.is_const);
            assert!(d.value.is_none());
        }
        _ => panic!("expected a declaration"),
    }
}

#[test]
fn type_statement_keeps_its_generics() {
    let (stmts, errs) = parse("type Pair<A, B> = [A, B]");
    assert!(errs.is_empty(), "unexpected errors: {:?}", errs.iter().map(|e| e.msg.clone()).collect::<Vec<_>>());
    match &stmts[0] {
        ASTStatement::Type(t) => assert_eq!(t.typings.as_ref().map(|l| l.entries.len()), Some(2)),
        _ => panic!("expected a type statement"),
    }
}

#[test]
fn every_statement_is_kept_in_order() {
    let (stmts, errs) = parse("struct A {}\nstruct B {}\nstruct C {}");
    assert!(errs.is_empty());
    let names: Vec<String> = stmts
        .iter()
        .map(|s| match s {
            ASTStatement::Struct(x) => x.name.value.clone(),
            _ => String::new(),
        })
        .collect();
    assert_eq!(names, vec!["A", "B", "C"]);
}

#[test]
fn call_keeps_its_argument() {
    let body = main_body("main { f(5); }");
    match &body[0] {
        ASTExpression::Call(c) => {
            assert!(matches!(*c.target, ASTExpression::Var(ref v) if v.value == "f"));
            assert_eq!(c.args.expressions.len(), 1);
            assert!(matches!(c.args.expressions[0], ASTExpression::Int(ref i) if i.value == 5));
            assert!(c.typings.is_none());
        }
        _ => panic!("expected a call"),
    }
}

#[test]
fn binary_operands_keep_their_order() {
    let body = main_body("main { 7 % 2; }");
    match &body[0] {
        ASTExpression::Binary(b) => {
            assert_eq!(b.op, "%");
            assert!(matches!(*b.left, ASTExpression::Int(ref i) if i.value == 7));
            assert!(matches!(*b.right, ASTExpression::Int(ref i) if i.value == 2));
        }
        _ => panic!("expected a binary expression"),
    }
}

#[test]
fn lower_precedence_after_higher_groups_left() {
    let body = main_body("main { 2 * 3 + 4; }");
    match &body[0] {
        ASTExpression::Binary(b) => {
            assert_eq!(b.op, "+");
            assert!(matches!(*b.right, ASTExpression::Int(ref i) if i.value == 4));
            match &*b.left {
                ASTExpression::Binary(inner) => {
                    assert_eq!(inner.op, "*");
                    assert!(matches!(*inner.left, ASTExpression::Int(ref i) if i.value == 2));
                    assert!(matches!(*inner.right, ASTExpression::Int(ref i) if i.value == 3));
                }
                _ => panic!("expected a nested binary expression"),
            }
        }
        _ => panic!("expected a binary expression"),
    }
}

#[test]
fn field_without_typing_is_reported() {
    let (_, errs) = parse("struct A { x: 5 }");
    assert!(!errs.is_empty());
    assert_eq!(errs[0].msg, "Expected typing.");
}

#[test]
fn struct_with_one_field() {
    let (stmts, errs) = parse("struct Person { name: str }");
    assert!(errs.is_empty());
    match &stmts[0] {
        ASTStatement::Struct(s) => {
            assert_eq!(s.fields.pairs.len(), 1);
            assert_eq!(s.fields.pairs[0].name, "name");
            assert!(s.fields.pairs[0].default_value.is_none());
            assert!(!s.fields.pairs[0].spread);
        }
        _ => panic!("expected a struct"),
    }
}
