use lazy::ast::{is_natural_val, ASTExpression, ASTExpressionList, ASTInt, ASTListTyping, ASTModifiers};
use lazy::errors::{ErrorLabel, ErrorLabelVariants, LoC, Range};
use lazy::module::{FileHost, Module};
use lazy::type_error::TypeErrors;
use lazy::analyzer::LazyAnalyzer;
use lazy::ast::{ASTTypings, ASTVar, ASTVarTyping};
use lazy::parser::Parser;
use lazy::scope::{EnumVariant, Scope, TypeInstance, VarTyping};
use lazy::symbol_table::TypeChecker;
use lazy::names::NameMap;
use lazy::symbol::{Symbol, SymbolCollector, SymbolKind, SymbolProperty, SymbolRef, StatementOrExpression, ToSymbol};
use lazy::path::{file_dir_and_join, join_paths};
use lazy::value::Value;

fn here() -> Range {
    Range { start: LoC { line: 1, col: 0, pos: 0 }, end: LoC { line: 1, col: 0, pos: 0 } }
}

#[test]
fn make_const_sets_const_and_value() {
    let r = SymbolRef::new_ref(3).make_const();
    assert!(r.is_const());
    assert!(r.is_value());
    assert!(!r.is_optional());
    assert!(!r.is_static());
    assert_eq!(r.id, 3);
}

#[test]
fn flags_accumulate() {
    let r = SymbolRef::new_instance(1, 2).make_optional().make_static().make_type_param();
    assert!(r.is_optional() && r.is_static() && r.is_type_param());
    assert!(!r.is_const());
    assert!(r.is_value());
    assert_eq!(r.instance_id, Some(2));
}

#[test]
fn fresh_symbols() {
    let s = Symbol::empty(7, String::from("A"), StatementOrExpression::NoneValue);
    assert!(matches!(s.kind, SymbolKind::NoneValue));
    assert!(!s.kind.is_struct() && !s.kind.is_enum() && !s.kind.is_fn() && !s.kind.is_module());
    let r = s.to_ref();
    assert_eq!(r.id, 7);
    assert!(!r.is_value());
    let v = Value::new(r);
    assert_eq!(v.flags.bits, 0);
}

#[test]
fn modifiers() {
    let mut m = ASTModifiers::empty();
    m.insert(ASTModifiers::const_mod());
    assert!(m.contains(ASTModifiers::const_mod()));
    assert!(!m.contains(ASTModifiers::private()));
    m.clear();
    assert_eq!(m.bits, 0);
}

#[test]
fn natural_values() {
    let one = ASTExpression::Int(ASTInt { value: 1, range: here() });
    let tuple = ASTExpression::Tuple(ASTExpressionList {
        expressions: vec![one, ASTExpression::NoneValue(here())],
        range: here(),
    });
    assert!(is_natural_val(&tuple));
    let var = ASTExpression::Var(lazy::ast::ASTVar { value: String::from("x"), range: here() });
    let bad = ASTExpression::Tuple(ASTExpressionList { expressions: vec![var], range: here() });
    assert!(!is_natural_val(&bad));
}

#[test]
fn module_paths_resolve_against_the_importing_file() {
    assert_eq!(file_dir_and_join("src/main.lazy", "./mod.lazy"), "src/mod.lazy");
    assert_eq!(join_paths("a/b", "../c", false), "a/c");
    assert_eq!(join_paths("a/b", "c/./d", false), "a/b/c/d");
}

#[test]
fn instances_are_shared_by_argument_symbols() {
    let here = LoC { line: 1, col: 0, pos: 0 };
    let ast = ASTListTyping { entries: Vec::new(), range: Range { start: here, end: here } };
    let mut s = Symbol::empty(3, String::from("List"), StatementOrExpression::NoneValue);
    s.type_params.insert(String::from("T"), None);
    let first = s.create_or_get_instance(vec![SymbolRef::new_ref(5)], &ast).ok().unwrap();
    assert_eq!(first.id, 3);
    assert_eq!(first.instance_id, Some(1));
    let again = s.create_or_get_instance(vec![SymbolRef::new_ref(5)], &ast).ok().unwrap();
    assert_eq!(again.instance_id, Some(1));
    let other = s.create_or_get_instance(vec![SymbolRef::new_ref(6)], &ast).ok().unwrap();
    assert_eq!(other.instance_id, Some(2));
    assert_eq!(s.instances.len(), 2);
    let e = s.create_or_get_instance(Vec::new(), &ast).err().unwrap();
    assert_eq!(e.msg, "Expected 1 type parameters, but found 0.");
}

#[test]
fn static_members_name_types() {
    let mut props = NameMap::new();
    props.insert(String::from("inner"), SymbolProperty { kind: SymbolRef::new_ref(9), flags: ASTModifiers::static_mod() });
    props.insert(String::from("field"), SymbolProperty { kind: SymbolRef::new_ref(8), flags: ASTModifiers::empty() });
    let mut s = Symbol::empty(1, String::from("S"), StatementOrExpression::NoneValue);
    s.kind = SymbolKind::Struct(props);
    let mut impl_props = NameMap::new();
    impl_props.insert(String::from("field"), SymbolProperty { kind: SymbolRef::new_ref(7), flags: ASTModifiers::static_mod() });
    let mut imp = Symbol::empty(2, String::from("I"), StatementOrExpression::NoneValue);
    imp.kind = SymbolKind::Struct(impl_props);
    s.impls.push(SymbolRef::new_ref(2));
    let mut table = TypeChecker::new();
    table.insert_symbol(imp);
    assert_eq!(s.get_mod_type(&table, "inner").unwrap().id, 9);
    assert_eq!(s.get_mod_type(&table, "field").unwrap().id, 7);
    assert!(s.get_mod_type(&table, "missing").is_none());
    assert!(SymbolRef::new_ref(2).get_kind(&table).is_struct());
    assert_eq!(2u32.to_symbol(&table).name, "I");
    assert_eq!(SymbolRef::new_ref(2).to_symbol(&table).id, 2);
    assert!(table.get_symbol(&5).is_none());
}

#[test]
fn enum_members_name_types() {
    let mut members = NameMap::new();
    members.insert(String::from("A"), SymbolRef::new_ref(4));
    let mut e = Symbol::empty(3, String::from("E"), StatementOrExpression::NoneValue);
    e.kind = SymbolKind::Enum(members);
    let table = TypeChecker::new();
    assert_eq!(e.get_mod_type(&table, "A").unwrap().id, 4);
    assert!(e.get_mod_type(&table, "B").is_none());
}

#[test]
fn name_maps_keep_one_entry_per_name() {
    let mut m = NameMap::new();
    m.insert(String::from("a"), 1u32);
    m.insert(String::from("b"), 2u32);
    m.insert(String::from("a"), 3u32);
    assert_eq!(m.len(), 2);
    assert_eq!(*m.get("a").unwrap(), 3);
    assert!(m.contains_key("b"));
    assert!(!m.contains_key("c"));
    let mut n = NameMap::new();
    n.insert(String::from("b"), 5u32);
    n.insert(String::from("c"), 6u32);
    m.extend_from(&n);
    assert_eq!(m.len(), 3);
    assert_eq!(*m.get("b").unwrap(), 5);
    assert_eq!(*m.get("c").unwrap(), 6);
}

#[test]
fn scopes_see_enclosing_frames() {
    let here = LoC { line: 1, col: 0, pos: 0 };
    let mut outer = Scope::new(None);
    outer.variables.insert(String::from("x"), TypeInstance::Generic(String::from("T")));
    outer.generics.insert(String::from("T"), VarTyping::Unbound(ASTVar { value: String::from("T"), range: Range { start: here, end: here } }));
    let mut inner = outer.extend();
    inner.variables.insert(String::from("y"), TypeInstance::Generic(String::from("U")));
    assert!(inner.has("x"));
    assert!(inner.has("y"));
    assert!(!inner.has("z"));
    assert!(inner.has_generic("T"));
    assert!(!inner.has_generic("U"));
    assert!(matches!(inner.get("x"), Some(TypeInstance::Generic(t)) if t == "T"));
    assert!(matches!(inner.get_generic("T"), Some(VarTyping::Unbound(v)) if v.value == "T"));
    let back = inner.clear().unwrap();
    assert!(back.has("x"));
    assert!(!back.has("y"));
    assert!(back.clear().is_none());
}

#[test]
fn extending_then_clearing_gives_the_scope_back() {
    let mut s = Scope::new(None);
    s.variables.insert(String::from("a"), TypeInstance::Generic(String::from("A")));
    let e = s.extend();
    assert!(e.has("a"));
    let back = e.clear().unwrap();
    assert!(back.has("a"));
    assert!(back.parent.is_none());
}

fn typing(name: &str) -> ASTTypings {
    let here = LoC { line: 2, col: 4, pos: 9 };
    let range = Range { start: here, end: here };
    ASTTypings::Var(ASTVarTyping { value: ASTVar { value: String::from(name), range }, typings: None, range })
}

#[test]
fn analyzer_registers_struct_types_once() {
    let mut p = Parser::new("struct A { x: i32 }", String::from("main.lazy"));
    let (stmts, errs) = p.parse();
    assert!(errs.is_empty());
    let mut a = LazyAnalyzer::new();
    a.register_type(&stmts[0]);
    assert!(a.errors.is_empty());
    assert!(a.types.contains_key("A"));
    a.register_type(&stmts[0]);
    assert_eq!(a.errors.len(), 1);
    assert_eq!(a.errors[0].msg, "The struct with name 'A' already exists");
    let e = a.validate_type(&typing("A")).err().unwrap();
    assert_eq!(e.msg, "Not implemented");
    assert_eq!(e.range.start.col, 4);
    let e = a.validate_type(&typing("B")).err().unwrap();
    assert_eq!(e.msg, "The type B doesn't exist");
}

#[test]
fn analyzer_resolves_generic_parameters() {
    let here = LoC { line: 1, col: 0, pos: 0 };
    let mut a = LazyAnalyzer::new();
    a.scope.generics.insert(String::from("T"), VarTyping::Unbound(ASTVar { value: String::from("T"), range: Range { start: here, end: here } }));
    assert!(matches!(a.validate_type(&typing("T")), Ok(TypeInstance::Generic(ref g)) if g == "T"));
    let list = ASTListTyping { entries: vec![typing("T"), typing("X"), typing("T")], range: Range { start: here, end: here } };
    let resolved = a.resolve_generics(&list);
    assert_eq!(resolved.len(), 2);
    assert!(resolved.iter().all(|t| matches!(t, TypeInstance::Generic(g) if g == "T")));
}

#[test]
fn analyzer_records_labelled_errors() {
    let here = LoC { line: 3, col: 1, pos: 20 };
    let range = Range { start: here, end: here };
    let mut a = LazyAnalyzer::new();
    let label = ErrorLabel { msg: String::from("declared here"), variant: ErrorLabelVariants::Help };
    a.error_lbl(TypeErrors::Incompatible(String::from("i32"), String::from("bool")), range, vec![label], true);
    assert_eq!(a.errors.len(), 1);
    assert_eq!(a.errors[0].msg, "Types i32 and bool are incompatible");
    assert_eq!(a.errors[0].labels[0].msg, "declared here");
    assert_eq!(a.errors[0].range.start.pos, 20);
}

struct NoFiles {
    next_id: u32,
}

impl FileHost for NoFiles {
    fn create(&mut self, _path: &str) -> Result<Option<&Module>, lazy::errors::ErrorCollector> {
        Ok(None)
    }

    fn get(&self, _path: &str) -> Option<&Module> {
        None
    }

    fn get_or_create(&mut self, _path: &str) -> Result<Option<&Module>, lazy::errors::ErrorCollector> {
        Ok(None)
    }

    fn get_unique_id(&mut self) -> u32 {
        self.next_id += 1;
        self.next_id
    }
}

#[test]
fn type_checker_keeps_symbols_by_id() {
    let mut table = TypeChecker::new();
    table.insert_symbol(Symbol::empty(4, String::from("A"), StatementOrExpression::NoneValue));
    table.get_mut_symbol(&4).unwrap().name = String::from("B");
    assert_eq!(table.get_symbol(&4).unwrap().name, "B");
    assert!(table.get_mut_symbol(&5).is_none());
    let mut module = Module::from_str(&mut NoFiles { next_id: 0 }, "main.lazy", "struct A { x: i32 }").ok().unwrap();
    assert!(table.check_module(&mut module).is_ok());
}

#[test]
fn enum_variants_compare_by_enum_and_variant() {
    let a = EnumVariant {
        enum_name: String::from("E"),
        variant: String::from("X"),
        variant_type: Box::new(TypeInstance::Generic(String::from("T"))),
        nullable: false,
    };
    let b = EnumVariant {
        enum_name: String::from("E"),
        variant: String::from("X"),
        variant_type: Box::new(TypeInstance::Generic(String::from("U"))),
        nullable: true,
    };
    let c = EnumVariant {
        enum_name: String::from("E"),
        variant: String::from("Y"),
        variant_type: Box::new(TypeInstance::Generic(String::from("T"))),
        nullable: false,
    };
    assert!(a == b);
    assert!(a != c);
}
