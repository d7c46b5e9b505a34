use yara_x::ast::{Ast, CmpOp, Expr, Import, Namespace, PatternDecl, Rule, Span, Type};
use yara_x::compiler::errors::{CompileError, Error, TypeSet};
use yara_x::compiler::Compiler;
use yara_x::warnings::Warning;

fn at(start: usize, end: usize) -> Span {
    Span { start, end }
}

fn truth() -> Expr {
    Expr::True { span: at(0, 4) }
}

fn rule(name: &str, patterns: &[&str], condition: Expr) -> Rule {
    Rule {
        identifier: name.to_string(),
        patterns: Some(
            patterns
                .iter()
                .map(|p| PatternDecl { identifier: p.to_string(), span: at(0, 0) })
                .collect(),
        ),
        condition,
    }
}

fn import(module: &str, span: Span) -> Import {
    Import { module_name: module.to_string(), span }
}

fn namespace(imports: Vec<Import>, rules: Vec<Rule>) -> Namespace {
    Namespace { imports, rules }
}

fn source(namespaces: Vec<Namespace>) -> Ast {
    Ast { namespaces, warnings: Vec::new() }
}

fn length_call() -> Expr {
    Expr::FnCall {
        callee: Box::new(Expr::FieldAccess {
            lhs: Box::new(Expr::Ident { name: "string".to_string(), span: at(0, 6) }),
            rhs: Box::new(Expr::Ident { name: "length".to_string(), span: at(7, 13) }),
            span: at(0, 13),
        }),
        args: vec![Expr::LiteralStr { value: b"abc".to_vec(), span: at(14, 19) }],
        span: at(0, 20),
    }
}

#[test]
fn a_new_compiler_has_nothing() {
    let compiler = Compiler::new();
    assert!(compiler.warnings().is_empty());
    let rules = compiler.build().unwrap();
    assert!(rules.rules().is_empty());
    assert!(rules.string_table().is_empty());
    let rules = Compiler::default().colorize_errors(true).build().unwrap();
    assert!(rules.rules().is_empty());
}

#[test]
fn rules_and_patterns_are_numbered_densely() {
    let rules = Compiler::new()
        .add_source(source(vec![namespace(
            vec![],
            vec![rule("first", &["$a", "$b"], truth()), rule("second", &[], truth())],
        )]))
        .unwrap()
        .add_source(source(vec![
            namespace(vec![], vec![rule("third", &["$b", "$c", "$a"], truth())]),
            namespace(vec![], vec![rule("fourth", &["$d"], truth())]),
        ]))
        .unwrap()
        .build()
        .unwrap();
    let rules = rules.rules();
    assert_eq!(rules.len(), 4);
    let numbers: Vec<Vec<i32>> =
        rules.iter().map(|r| r.patterns.iter().map(|p| p.1).collect()).collect();
    assert_eq!(numbers, vec![vec![0, 1], vec![], vec![2, 3, 4], vec![5]]);
}

#[test]
fn identifiers_are_in_the_pool_once() {
    let compiled = Compiler::new()
        .add_source(source(vec![namespace(
            vec![],
            vec![
                rule("first", &["$a", "$b"], truth()),
                rule("second", &["$b", "$a", "$a"], truth()),
                rule("$a", &["first"], truth()),
            ],
        )]))
        .unwrap()
        .build()
        .unwrap();
    let rules = compiled.rules();
    // `$a` is 0, `$b` is 1, `first` is 2, `second` is 3.
    assert_eq!(rules[0].patterns, vec![(0, 0), (1, 1)]);
    assert_eq!(rules[0].ident, 2);
    // The same pattern declared twice is two patterns.
    assert_eq!(rules[1].patterns, vec![(1, 2), (0, 3), (0, 4)]);
    assert_eq!(rules[1].ident, 3);
    assert_eq!(rules[2].patterns, vec![(2, 5)]);
    assert_eq!(rules[2].ident, 0);
    assert_eq!(compiled.rule_name(0), "first");
    assert_eq!(compiled.rule_name(1), "second");
    assert_eq!(compiled.rule_name(2), "$a");
}

#[test]
fn a_rule_without_patterns_has_none() {
    let compiled = Compiler::new()
        .add_source(source(vec![namespace(
            vec![],
            vec![Rule { identifier: "r".to_string(), patterns: None, condition: truth() }],
        )]))
        .unwrap()
        .build()
        .unwrap();
    assert!(compiled.rules()[0].patterns.is_empty());
    assert_eq!(compiled.rules()[0].ident, 0);
}

#[test]
fn a_bare_integer_condition_gives_one_warning() {
    let condition = Expr::LiteralInt { value: 5, span: at(20, 21) };
    let compiler = Compiler::new()
        .add_source(source(vec![namespace(vec![], vec![rule("r", &[], condition)])]))
        .unwrap();
    assert_eq!(
        compiler.warnings(),
        &vec![Warning::NonBooleanAsBoolean { ty: Type::Integer, span: at(20, 21) }]
    );
    assert!(compiler.build().is_ok());
}

#[test]
fn a_bare_string_condition_gives_one_warning() {
    let condition = Expr::LiteralStr { value: b"text".to_vec(), span: at(20, 26) };
    let compiler = Compiler::new()
        .add_source(source(vec![namespace(vec![], vec![rule("r", &[], condition)])]))
        .unwrap();
    assert_eq!(
        compiler.warnings(),
        &vec![Warning::NonBooleanAsBoolean { ty: Type::String, span: at(20, 26) }]
    );
    assert!(compiler.build().is_ok());
}

#[test]
fn a_boolean_condition_gives_no_warning() {
    let condition = Expr::Not {
        operand: Box::new(Expr::LiteralInt { value: 5, span: at(24, 25) }),
        span: at(20, 25),
    };
    let compiler = Compiler::new()
        .add_source(source(vec![namespace(
            vec![],
            vec![rule("r", &[], condition), rule("s", &[], truth())],
        )]))
        .unwrap();
    assert!(compiler.warnings().is_empty());
}

#[test]
fn warnings_add_up() {
    let float = Expr::LiteralFlt { bits: 0, span: at(5, 8) };
    let compiler = Compiler::new()
        .add_source(Ast {
            namespaces: vec![namespace(
                vec![import("string", at(0, 15)), import("string", at(16, 31))],
                vec![rule("r", &[], float), rule("s", &[], length_call())],
            )],
            warnings: vec![Warning::DuplicateImport {
                module_name: "parser".to_string(),
                span: at(1, 2),
            }],
        })
        .unwrap()
        .add_source(source(vec![namespace(vec![import("string", at(0, 15))], vec![])]))
        .unwrap();
    assert_eq!(
        compiler.warnings(),
        &vec![
            Warning::DuplicateImport { module_name: "parser".to_string(), span: at(1, 2) },
            Warning::DuplicateImport { module_name: "string".to_string(), span: at(16, 31) },
            Warning::NonBooleanAsBoolean { ty: Type::Float, span: at(5, 8) },
            Warning::NonBooleanAsBoolean { ty: Type::Integer, span: at(0, 20) },
        ]
    );
}

#[test]
fn an_unknown_import_is_rejected() {
    let result = Compiler::new().add_source(source(vec![namespace(
        vec![import("nonexistent_module", at(7, 27))],
        vec![rule("r", &[], truth())],
    )]));
    match result {
        Err(err) => assert_eq!(
            err,
            Error::CompileError(CompileError::UnknownModule {
                module_name: "nonexistent_module".to_string(),
                span: at(7, 27),
            })
        ),
        Ok(_) => panic!("the import was accepted"),
    }
}

#[test]
fn an_unknown_import_is_found_before_the_rules_of_its_namespace() {
    let bad_rule = rule("r", &[], Expr::Ident { name: "x".to_string(), span: at(50, 51) });
    let result = Compiler::new().add_source(source(vec![namespace(
        vec![import("string", at(0, 15)), import("strings", at(16, 32))],
        vec![bad_rule],
    )]));
    assert_eq!(
        result.err(),
        Some(Error::CompileError(CompileError::UnknownModule {
            module_name: "strings".to_string(),
            span: at(16, 32),
        }))
    );
}

#[test]
fn an_error_in_an_earlier_namespace_comes_first() {
    let bad_rule = rule("r", &[], Expr::Ident { name: "x".to_string(), span: at(50, 51) });
    let result = Compiler::new().add_source(source(vec![
        namespace(vec![], vec![rule("fine", &[], truth()), bad_rule]),
        namespace(vec![import("nonexistent_module", at(60, 80))], vec![]),
    ]));
    assert_eq!(
        result.err(),
        Some(Error::CompileError(CompileError::UnknownIdentifier {
            name: "x".to_string(),
            span: at(50, 51),
        }))
    );
}

#[test]
fn a_module_must_be_imported_before_it_is_used() {
    let result = Compiler::new()
        .add_source(source(vec![namespace(vec![], vec![rule("r", &[], length_call())])]));
    assert_eq!(
        result.err(),
        Some(Error::CompileError(CompileError::UnknownIdentifier {
            name: "string".to_string(),
            span: at(0, 6),
        }))
    );
    let result = Compiler::new().add_source(source(vec![namespace(
        vec![import("string", at(0, 15))],
        vec![rule("r", &[], length_call())],
    )]));
    assert!(result.is_ok());
}

#[test]
fn an_import_stays_for_later_sources() {
    let compiler = Compiler::new()
        .add_source(source(vec![namespace(vec![import("string", at(0, 15))], vec![])]))
        .unwrap()
        .add_source(source(vec![namespace(vec![], vec![rule("r", &[], length_call())])]))
        .unwrap();
    assert_eq!(compiler.build().unwrap().rules().len(), 1);
}

#[test]
fn a_condition_must_be_a_value() {
    let module = Expr::Ident { name: "string".to_string(), span: at(30, 36) };
    let result = Compiler::new().add_source(source(vec![namespace(
        vec![import("string", at(0, 15))],
        vec![rule("r", &[], module)],
    )]));
    assert_eq!(
        result.err(),
        Some(Error::CompileError(CompileError::WrongType {
            expected: TypeSet::scalars(),
            actual: Type::Struct,
            span: at(30, 36),
        }))
    );
}

#[test]
fn a_pattern_of_another_rule_is_unknown() {
    let uses_a = Expr::PatternMatch { ident: "$a".to_string(), span: at(40, 42) };
    let result = Compiler::new().add_source(source(vec![namespace(
        vec![],
        vec![rule("first", &["$a"], truth()), rule("second", &["$b"], uses_a)],
    )]));
    assert_eq!(
        result.err(),
        Some(Error::CompileError(CompileError::UnknownPattern {
            ident: "$a".to_string(),
            span: at(40, 42),
        }))
    );
}

#[test]
fn earlier_sources_stay_after_a_later_one() {
    // What was compiled by one call is there for the next: the numbers
    // count on.
    let compiler = Compiler::new()
        .add_source(source(vec![namespace(vec![], vec![rule("first", &["$a"], truth())])]))
        .unwrap();
    let compiled = compiler
        .add_source(source(vec![namespace(vec![], vec![rule("second", &["$b"], truth())])]))
        .unwrap()
        .build()
        .unwrap();
    assert_eq!(compiled.rules().len(), 2);
    assert_eq!(compiled.rules()[1].patterns, vec![(2, 1)]);
    assert_eq!(compiled.rule_name(1), "second");
}

fn length_is_three() -> Ast {
    let comparison = Expr::Cmp {
        op: CmpOp::Eq,
        lhs: Box::new(length_call()),
        rhs: Box::new(Expr::LiteralInt { value: 3, span: at(24, 25) }),
        span: at(0, 25),
    };
    source(vec![namespace(vec![import("string", at(0, 15))], vec![rule("r", &["$a"], comparison)])])
}

#[test]
fn the_module_is_written_in_binary_form() {
    let wasm = Compiler::new().add_source(length_is_three()).unwrap().emit_wasm();
    assert_eq!(&wasm[0..8], b"\0asm\x01\0\0\0");
    let compiled = Compiler::new().add_source(length_is_three()).unwrap().build().unwrap();
    assert_eq!(compiled.wasm(), &wasm);
    assert_eq!(compiled.string_table(), &vec![b"abc".to_vec()]);
    let imports: Vec<&str> = compiled.imports().iter().map(|f| f.name.as_str()).collect();
    assert_eq!(imports, vec!["string.length", "string.to_int", "string.to_int_base"]);
}

#[test]
fn the_compiled_module_imports_the_host_and_exports_its_entry() {
    let compiled = Compiler::new().add_source(length_is_three()).unwrap().build().unwrap();
    let module = compiled.compiled_wasm_mod();
    let names: Vec<String> =
        module.imports().map(|i| format!("{}.{}", i.module(), i.name())).collect();
    assert_eq!(
        names,
        vec![
            "host.rule_match",
            "host.pattern_match",
            "host.pattern_offset",
            "host.string_length",
            "host.string_equals",
            "host.string.length",
            "host.string.to_int",
            "host.string.to_int_base",
        ]
    );
    let exports: Vec<&str> = module.exports().map(|e| e.name()).collect();
    assert_eq!(exports, vec!["main"]);
}

#[test]
fn the_imports_have_the_types_that_the_code_relies_on() {
    let compiled = Compiler::new().add_source(length_is_three()).unwrap().build().unwrap();
    let module = compiled.compiled_wasm_mod();
    let types: Vec<String> = module
        .imports()
        .map(|i| {
            let f = i.ty().unwrap_func().clone();
            let params: Vec<String> = f.params().map(|t| t.to_string()).collect();
            let results: Vec<String> = f.results().map(|t| t.to_string()).collect();
            format!("{}({}) -> ({})", i.name(), params.join(", "), results.join(", "))
        })
        .collect();
    assert_eq!(
        types,
        vec![
            "rule_match(i32) -> ()",
            "pattern_match(i32) -> (i32)",
            "pattern_offset(i32) -> (i64, i32)",
            "string_length(i64) -> (i64)",
            "string_equals(i64, i64) -> (i32)",
            "string.length(i64) -> (i64, i32)",
            "string.to_int(i64) -> (i64, i32)",
            "string.to_int_base(i64, i64) -> (i64, i32)",
        ]
    );
    let entry = module.exports().next().unwrap();
    let f = entry.ty().unwrap_func().clone();
    assert_eq!((f.params().len(), f.results().len()), (0, 0));
}

#[test]
fn the_same_rules_give_the_same_module() {
    let first = Compiler::new().add_source(length_is_three()).unwrap().emit_wasm();
    let second = Compiler::new().add_source(length_is_three()).unwrap().emit_wasm();
    assert_eq!(first, second);
    let other = Compiler::new().emit_wasm();
    assert_ne!(first, other);
}
