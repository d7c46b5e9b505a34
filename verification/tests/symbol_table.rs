use std::rc::Rc;

use yara_x::ast::Type;
use yara_x::modules::string::{symbols, LENGTH_FN, TO_INT_BASE_FN, TO_INT_FN};
use yara_x::modules::{builtin_modules, host_functions, lookup_module};
use yara_x::symbol_table::{same_text, SymbolLookup, SymbolTable, TypeValue};

#[test]
fn a_new_table_is_empty() {
    let table = SymbolTable::new();
    assert_eq!(table.len(), 0);
    assert_eq!(table.lookup("x"), None);
    assert_eq!(table.lookup(""), None);
}

#[test]
fn insert_binds_a_name() {
    let mut table = SymbolTable::new();
    table.insert("size", TypeValue::Integer(Some(3)));
    table.insert("name", TypeValue::String(None));
    assert_eq!(table.len(), 2);
    assert_eq!(table.lookup("size"), Some(&TypeValue::Integer(Some(3))));
    assert_eq!(table.lookup("name"), Some(&TypeValue::String(None)));
    assert_eq!(table.lookup("other"), None);
    assert_eq!(table.lookup("Size"), None);
}

#[test]
fn insert_replaces_a_binding() {
    let mut table = SymbolTable::new();
    table.insert("x", TypeValue::Integer(Some(1)));
    table.insert("y", TypeValue::Bool(Some(true)));
    table.insert("x", TypeValue::Float(None));
    assert_eq!(table.len(), 2);
    assert_eq!(table.lookup("x"), Some(&TypeValue::Float(None)));
    assert_eq!(table.lookup("y"), Some(&TypeValue::Bool(Some(true))));
}

#[test]
fn structures_hold_tables() {
    let mut inner = SymbolTable::new();
    inner.insert("field", TypeValue::Bool(Some(false)));
    let mut outer = SymbolTable::new();
    outer.insert("module", TypeValue::Struct(Rc::new(inner)));
    match outer.lookup("module") {
        Some(TypeValue::Struct(t)) => {
            assert_eq!(t.lookup("field"), Some(&TypeValue::Bool(Some(false))));
            assert_eq!(t.lookup("module"), None);
        }
        other => panic!("{:?}", other),
    }
}

#[test]
fn every_value_has_its_type() {
    assert_eq!(TypeValue::Bool(None).ty(), Type::Bool);
    assert_eq!(TypeValue::Integer(Some(1)).ty(), Type::Integer);
    assert_eq!(TypeValue::Float(Some(0)).ty(), Type::Float);
    assert_eq!(TypeValue::String(Some(vec![])).ty(), Type::String);
    assert_eq!(TypeValue::Struct(Rc::new(SymbolTable::new())).ty(), Type::Struct);
    assert_eq!(TypeValue::Func(vec![]).ty(), Type::Func);
}

#[test]
fn same_text_compares_strings() {
    assert!(same_text("abc", "abc"));
    assert!(same_text("", ""));
    assert!(!same_text("abc", "abd"));
    assert!(!same_text("abc", "ab"));
    assert!(!same_text("a", "A"));
}

#[test]
fn the_string_module_has_its_functions() {
    let table = symbols();
    assert_eq!(table.len(), 2);
    match table.lookup("length") {
        Some(TypeValue::Func(sigs)) => {
            assert_eq!(sigs.len(), 1);
            assert_eq!(sigs[0].args, vec![Type::String]);
            assert_eq!(sigs[0].result, Type::Integer);
            assert_eq!(sigs[0].func_id, LENGTH_FN);
        }
        other => panic!("{:?}", other),
    }
    match table.lookup("to_int") {
        Some(TypeValue::Func(sigs)) => {
            assert_eq!(sigs.len(), 2);
            assert_eq!(sigs[0].args, vec![Type::String]);
            assert_eq!(sigs[0].func_id, TO_INT_FN);
            assert_eq!(sigs[1].args, vec![Type::String, Type::Integer]);
            assert_eq!(sigs[1].result, Type::Integer);
            assert_eq!(sigs[1].func_id, TO_INT_BASE_FN);
        }
        other => panic!("{:?}", other),
    }
    assert_eq!(table.lookup("to_int_base"), None);
}

#[test]
fn the_registry_knows_the_string_module() {
    let modules = builtin_modules();
    assert_eq!(modules.len(), 1);
    assert_eq!(lookup_module(&modules, "string").map(|m| m.name.as_str()), Some("string"));
    assert!(lookup_module(&modules, "nonexistent_module").is_none());
    assert!(lookup_module(&modules, "String").is_none());
    assert!(lookup_module(&modules, "").is_none());
}

#[test]
fn the_host_provides_each_function_under_its_number() {
    let functions = host_functions();
    assert_eq!(functions.len(), 3);
    assert_eq!(functions[LENGTH_FN as usize].name, "string.length");
    assert_eq!(functions[LENGTH_FN as usize].args, vec![Type::String]);
    assert_eq!(functions[TO_INT_FN as usize].name, "string.to_int");
    assert_eq!(functions[TO_INT_BASE_FN as usize].name, "string.to_int_base");
    assert_eq!(functions[TO_INT_BASE_FN as usize].args, vec![Type::String, Type::Integer]);
    assert!(functions.iter().all(|f| f.result == Type::Integer));
}
