use lazy::errors::ErrorCollector;
use lazy::module::{FileHost, Module};

struct Host {
    next_id: u32,
    other: Option<Module>,
}

impl FileHost for Host {
    fn create(&mut self, _path: &str) -> Result<Option<&Module>, ErrorCollector> {
        Ok(self.other.as_ref())
    }

    fn get(&self, _path: &str) -> Option<&Module> {
        self.other.as_ref()
    }

    fn get_or_create(&mut self, _path: &str) -> Result<Option<&Module>, ErrorCollector> {
        Ok(self.other.as_ref())
    }

    fn get_unique_id(&mut self) -> u32 {
        self.next_id += 1;
        self.next_id
    }
}

fn host() -> Host {
    Host { next_id: 0, other: None }
}

fn messages(e: &ErrorCollector) -> Vec<String> {
    e.collected.iter().map(|x| x.msg.clone()).collect()
}

#[test]
fn module_files_declarations() {
    let mut h = host();
    let m = Module::from_str(&mut h, "main.lazy", "struct A { x: i32 }\nexport struct B { y: i32 }")
        .unwrap_or_else(|e| panic!("errors: {:?}", messages(&e)));
    assert_eq!(m.filename, "main.lazy");
    assert_eq!(m.local.get("A").unwrap().id, 1);
    assert!(m.exported.get("A").is_none());
    assert_eq!(m.exported.get("B").unwrap().id, 2);
    assert_eq!(m.temporary.get("B").unwrap().id, 2);
    assert_eq!(m.temporary.get("A").unwrap().name, "A");
    assert_eq!(m.get_sym("B").unwrap().id, 2);
    assert!(m.get_sym("C").is_none());
}

#[test]
fn module_rejects_duplicates() {
    let mut h = host();
    let e = Module::from_str(&mut h, "main.lazy", "struct A { x: i32 }\nstruct A { y: i32 }").err().unwrap();
    assert_eq!(messages(&e), vec![String::from("Duplicate identifier A.")]);
    assert_eq!(e.filename, "main.lazy");
}

#[test]
fn module_reports_missing_module() {
    let mut h = host();
    let e = Module::from_str(&mut h, "main.lazy", "import * from \"other\"\nstruct Z { a: i32 }").err().unwrap();
    assert_eq!(messages(&e), vec![String::from("Module other not found.")]);
}

#[test]
fn module_imports_names() {
    let mut h = host();
    let other = Module::from_str(&mut h, "other.lazy", "export struct T { a: i32 }").ok().unwrap();
    let mut h = Host { next_id: 10, other: Some(other) };
    let m = Module::from_str(&mut h, "main.lazy", "import * from \"other\"\nstruct Z { a: i32 }").ok().unwrap();
    assert_eq!(m.local.get("T").unwrap().id, 1);
    let m = Module::from_str(&mut h, "main.lazy", "import { T as U } from \"other\"\nstruct Z { a: i32 }").ok().unwrap();
    assert_eq!(m.local.get("U").unwrap().id, 1);
    assert!(m.local.get("T").is_none());
    let e = Module::from_str(&mut h, "main.lazy", "import { V } from \"other\"\nstruct Z { a: i32 }").err().unwrap();
    assert_eq!(messages(&e), vec![String::from("Type V not found from module \"other\"")]);
}

#[test]
fn module_import_at_end_of_input() {
    let mut h = host();
    let e = Module::from_str(&mut h, "main.lazy", "import * from \"other\"").err().unwrap();
    assert_eq!(messages(&e), vec![String::from("Expected identifier.")]);
}

#[test]
fn module_export_shares_the_name_space() {
    let mut h = host();
    let e = Module::from_str(&mut h, "main.lazy", "struct A { x: i32 }\nexport struct A { y: i32 }").err().unwrap();
    assert_eq!(messages(&e), vec![String::from("Duplicate identifier A.")]);
}

#[test]
fn exported_statics_are_filed_as_exported() {
    let mut h = host();
    let m = Module::from_str(&mut h, "main.lazy", "export static n = 5\nstruct A { x: i32 }")
        .unwrap_or_else(|e| panic!("errors: {:?}", messages(&e)));
    assert!(m.exported.get("n").is_some());
    assert!(m.local.get("n").is_none());
    assert_eq!(m.temporary.get("n").unwrap().id, m.exported.get("n").unwrap().id);
}

#[test]
fn lexer_and_parser_errors_come_first() {
    let mut h = host();
    let e = Module::from_str(&mut h, "main.lazy", "struct A { x: i32 }\n@").err().unwrap();
    assert!(!e.collected.is_empty());
    assert_eq!(e.filename, "main.lazy");
}

#[test]
fn module_ids_are_distinct_and_filed_once() {
    let mut h = host();
    let m = Module::from_str(&mut h, "main.lazy", "struct A { x: i32 }\nexport struct E { y: i32 }\nstruct T { z: i32 }")
        .unwrap_or_else(|e| panic!("errors: {:?}", messages(&e)));
    let a = m.temporary.get("A").unwrap().id;
    let e = m.temporary.get("E").unwrap().id;
    let t = m.temporary.get("T").unwrap().id;
    assert!(a != e && e != t && a != t);
    assert_eq!(h.next_id, 3);
    assert!(m.local.get("A").is_some() && m.exported.get("A").is_none());
    assert!(m.local.get("E").is_none() && m.exported.get("E").is_some());
    assert!(m.local.get("T").is_some() && m.exported.get("T").is_none());
    assert_eq!(m.local.get("T").unwrap().id, t);
}
