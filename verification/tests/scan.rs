use std::sync::{Arc, Mutex};

use yara_x::ast::{Ast, CmpOp, Expr, Import, Namespace, PatternDecl, Rule, Span};
use yara_x::compiler::errors::Error;
use yara_x::compiler::{CompiledRules, Compiler};
use yara_x::modules::string::{length, to_int, to_int_base};

fn span() -> Span {
    Span { start: 0, end: 0 }
}

fn ident(name: &str) -> Expr {
    Expr::Ident { name: name.to_string(), span: span() }
}

fn number(value: i64) -> Expr {
    Expr::LiteralInt { value, span: span() }
}

fn text(value: &str) -> Expr {
    Expr::LiteralStr { value: value.as_bytes().to_vec(), span: span() }
}

fn call(module: &str, function: &str, args: Vec<Expr>) -> Expr {
    Expr::FnCall {
        callee: Box::new(Expr::FieldAccess {
            lhs: Box::new(ident(module)),
            rhs: Box::new(ident(function)),
            span: span(),
        }),
        args,
        span: span(),
    }
}

fn compare(op: CmpOp, lhs: Expr, rhs: Expr) -> Expr {
    Expr::Cmp { op, lhs: Box::new(lhs), rhs: Box::new(rhs), span: span() }
}

fn and(lhs: Expr, rhs: Expr) -> Expr {
    Expr::And { lhs: Box::new(lhs), rhs: Box::new(rhs), span: span() }
}

fn or(lhs: Expr, rhs: Expr) -> Expr {
    Expr::Or { lhs: Box::new(lhs), rhs: Box::new(rhs), span: span() }
}

fn not(operand: Expr) -> Expr {
    Expr::Not { operand: Box::new(operand), span: span() }
}

fn offset(pattern: &str) -> Expr {
    Expr::PatternOffset { ident: pattern.to_string(), span: span() }
}

fn matched(pattern: &str) -> Expr {
    Expr::PatternMatch { ident: pattern.to_string(), span: span() }
}

fn rule(name: &str, patterns: &[&str], condition: Expr) -> Rule {
    Rule {
        identifier: name.to_string(),
        patterns: if patterns.is_empty() {
            None
        } else {
            Some(
                patterns
                    .iter()
                    .map(|p| PatternDecl { identifier: p.to_string(), span: span() })
                    .collect(),
            )
        },
        condition,
    }
}

fn source(imports: &[&str], rules: Vec<Rule>) -> Ast {
    Ast {
        namespaces: vec![Namespace {
            imports: imports
                .iter()
                .map(|m| Import { module_name: m.to_string(), span: span() })
                .collect(),
            rules,
        }],
        warnings: Vec::new(),
    }
}

fn undefined_flag(value: Option<i64>) -> (i64, i32) {
    match value {
        Some(v) => (v, 0),
        None => (0, 1),
    }
}

/// Runs the compiled rules as a scanner would, with the patterns whose
/// numbers are given as the ones that matched, each at the offset given
/// with it. The result holds the numbers of the rules that matched.
fn scan(rules: &CompiledRules, matches: &[(i32, i64)]) -> Vec<i32> {
    let module = rules.compiled_wasm_mod();
    let engine = module.engine();
    let reported: Arc<Mutex<Vec<i32>>> = Arc::new(Mutex::new(Vec::new()));
    let mut store = wasmtime::Store::new(engine, ());
    let mut linker: wasmtime::Linker<()> = wasmtime::Linker::new(engine);
    let sink = reported.clone();
    linker
        .func_wrap("host", "rule_match", move |rule_id: i32| {
            sink.lock().unwrap().push(rule_id);
        })
        .unwrap();
    let found: Vec<(i32, i64)> = matches.to_vec();
    linker
        .func_wrap("host", "pattern_match", move |pattern_id: i32| -> i32 {
            found.iter().any(|(p, _)| *p == pattern_id) as i32
        })
        .unwrap();
    let found: Vec<(i32, i64)> = matches.to_vec();
    linker
        .func_wrap("host", "pattern_offset", move |pattern_id: i32| -> (i64, i32) {
            undefined_flag(found.iter().find(|(p, _)| *p == pattern_id).map(|(_, o)| *o))
        })
        .unwrap();
    let strings = rules.string_table().clone();
    linker
        .func_wrap("host", "string_length", move |s: i64| -> i64 {
            strings[s as usize].len() as i64
        })
        .unwrap();
    let strings = rules.string_table().clone();
    linker
        .func_wrap("host", "string_equals", move |a: i64, b: i64| -> i32 {
            (strings[a as usize] == strings[b as usize]) as i32
        })
        .unwrap();
    let strings = rules.string_table().clone();
    linker
        .func_wrap("host", "string.length", move |s: i64| -> (i64, i32) {
            undefined_flag(length(&strings[s as usize]))
        })
        .unwrap();
    let strings = rules.string_table().clone();
    linker
        .func_wrap("host", "string.to_int", move |s: i64| -> (i64, i32) {
            undefined_flag(to_int(&strings[s as usize]))
        })
        .unwrap();
    let strings = rules.string_table().clone();
    linker
        .func_wrap("host", "string.to_int_base", move |s: i64, base: i64| -> (i64, i32) {
            undefined_flag(to_int_base(&strings[s as usize], base))
        })
        .unwrap();
    let instance = linker.instantiate(&mut store, module).unwrap();
    let main = instance.get_typed_func::<(), ()>(&mut store, "main").unwrap();
    main.call(&mut store, ()).unwrap();
    let result = reported.lock().unwrap().clone();
    result
}

fn compile(imports: &[&str], rules: Vec<Rule>) -> Result<CompiledRules, Error> {
    Compiler::new().add_source(source(imports, rules))?.build()
}

#[test]
fn end2end() {
    let length_of = || call("string", "length", vec![text("AXsx00ERS")]);
    let rules = Compiler::new()
        .add_source(source(
            &["string"],
            vec![
                // True
                rule("rule_1", &[], compare(CmpOp::Eq, length_of(), number(9))),
                rule("rule_2", &[], compare(CmpOp::Eq, length_of(), number(9))),
                // False
                rule("rule_3", &[], compare(CmpOp::Gt, length_of(), number(9))),
                rule("rule_4", &[], compare(CmpOp::Lt, length_of(), number(9))),
                // True
                rule(
                    "rule_5",
                    &[],
                    compare(CmpOp::Eq, call("string", "to_int", vec![text("1234")]), number(1234)),
                ),
                rule(
                    "rule_6",
                    &[],
                    compare(CmpOp::Eq, call("string", "to_int", vec![text("-10")]), number(-10)),
                ),
                // False
                rule(
                    "rule_7",
                    &[],
                    compare(CmpOp::Eq, call("string", "to_int", vec![text("-10")]), number(-8)),
                ),
                // True
                rule(
                    "rule_8",
                    &[],
                    compare(
                        CmpOp::Eq,
                        call("string", "to_int", vec![text("A"), number(16)]),
                        number(10),
                    ),
                ),
                rule(
                    "rule_9",
                    &[],
                    compare(
                        CmpOp::Eq,
                        call("string", "to_int", vec![text("011"), number(8)]),
                        number(9),
                    ),
                ),
                // False
                rule(
                    "rule_10",
                    &[],
                    compare(
                        CmpOp::Eq,
                        call("string", "to_int", vec![text("-011"), number(0)]),
                        number(-9),
                    ),
                ),
            ],
        ))
        .unwrap()
        .build()
        .unwrap();

    assert_eq!(scan(&rules, &[]).len(), 6);
}

#[test]
fn end2end_reports_the_matching_rules_in_order() {
    let length_of = || call("string", "length", vec![text("AXsx00ERS")]);
    let rules = compile(
        &["string"],
        vec![
            rule("rule_1", &[], compare(CmpOp::Eq, length_of(), number(9))),
            rule("rule_3", &[], compare(CmpOp::Gt, length_of(), number(9))),
            rule(
                "rule_8",
                &[],
                compare(CmpOp::Eq, call("string", "to_int", vec![text("A"), number(16)]), number(10)),
            ),
            rule(
                "rule_10",
                &[],
                compare(CmpOp::Eq, call("string", "to_int", vec![text("-011"), number(0)]), number(-9)),
            ),
            rule("last", &[], Expr::True { span: span() }),
        ],
    )
    .unwrap();
    assert_eq!(scan(&rules, &[]), vec![0, 2, 4]);
    assert_eq!(rules.rule_name(2), "rule_8");
}

#[test]
fn undefined_and_false_is_false() {
    // `not (@a > 0 and false)`: the conjunction is false, so the rule
    // matches whether `@a` is defined or not.
    let condition =
        not(and(compare(CmpOp::Gt, offset("$a"), number(0)), Expr::False { span: span() }));
    let rules = compile(&[], vec![rule("r", &["$a"], condition)]).unwrap();
    assert_eq!(scan(&rules, &[]), vec![0]);
    assert_eq!(scan(&rules, &[(0, 7)]), vec![0]);
}

#[test]
fn undefined_and_true_is_undefined() {
    // `not (@a >= 0 and true)`: false where `@a` is defined, and undefined
    // where it is not. It never matches.
    let condition =
        not(and(compare(CmpOp::Ge, offset("$a"), number(0)), Expr::True { span: span() }));
    let rules = compile(&[], vec![rule("r", &["$a"], condition)]).unwrap();
    assert_eq!(scan(&rules, &[]), Vec::<i32>::new());
    assert_eq!(scan(&rules, &[(0, 3)]), Vec::<i32>::new());
    let condition =
        not(and(Expr::True { span: span() }, compare(CmpOp::Lt, offset("$a"), number(0))));
    let rules = compile(&[], vec![rule("r", &["$a"], condition)]).unwrap();
    assert_eq!(scan(&rules, &[]), Vec::<i32>::new());
    assert_eq!(scan(&rules, &[(0, 3)]), vec![0]);
}

#[test]
fn undefined_or_false_is_undefined() {
    let condition =
        not(or(compare(CmpOp::Lt, offset("$a"), number(0)), Expr::False { span: span() }));
    let rules = compile(&[], vec![rule("r", &["$a"], condition)]).unwrap();
    assert_eq!(scan(&rules, &[]), Vec::<i32>::new());
    assert_eq!(scan(&rules, &[(0, 3)]), vec![0]);
    let condition =
        not(or(Expr::False { span: span() }, compare(CmpOp::Lt, offset("$a"), number(0))));
    let rules = compile(&[], vec![rule("r", &["$a"], condition)]).unwrap();
    assert_eq!(scan(&rules, &[]), Vec::<i32>::new());
}

#[test]
fn undefined_and_undefined_is_undefined() {
    let a = || compare(CmpOp::Ge, offset("$a"), number(0));
    let b = || compare(CmpOp::Ge, offset("$b"), number(0));
    let rules = compile(
        &[],
        vec![
            rule("both", &["$a", "$b"], and(a(), b())),
            rule("not_both", &["$a", "$b"], not(and(a(), b()))),
            rule("either", &["$a", "$b"], or(a(), b())),
            rule("neither", &["$a", "$b"], not(or(a(), b()))),
        ],
    )
    .unwrap();
    // The patterns of the rules have the numbers 0 to 7.
    assert_eq!(scan(&rules, &[]), Vec::<i32>::new());
    assert_eq!(scan(&rules, &[(0, 1), (1, 1)]), vec![0]);
    assert_eq!(scan(&rules, &[(4, 1)]), vec![2]);
    assert_eq!(scan(&rules, &[(5, 1)]), vec![2]);
}

#[test]
fn nested_conditions_keep_their_handlers() {
    let a = || compare(CmpOp::Eq, offset("$a"), number(1));
    let rules = compile(
        &[],
        vec![
            rule("r0", &["$a"], or(and(a(), Expr::True { span: span() }), not(a()))),
            rule(
                "r1",
                &["$a"],
                or(and(a(), Expr::True { span: span() }), Expr::True { span: span() }),
            ),
            rule("r2", &["$a"], and(or(a(), Expr::False { span: span() }), not(a()))),
            rule("r3", &["$a"], not(and(not(a()), or(a(), matched("$a"))))),
        ],
    )
    .unwrap();
    assert_eq!(scan(&rules, &[]), vec![1]);
    assert_eq!(scan(&rules, &[(0, 1)]), vec![0, 1]);
    assert_eq!(scan(&rules, &[(1, 1)]), vec![1]);
    assert_eq!(scan(&rules, &[(3, 1)]), vec![1, 3]);
    assert_eq!(scan(&rules, &[(3, 2)]), vec![1]);
}

#[test]
fn undefined_or_true_is_true() {
    let condition = or(compare(CmpOp::Gt, offset("$a"), number(0)), Expr::True { span: span() });
    let rules = compile(&[], vec![rule("r", &["$a"], condition)]).unwrap();
    assert_eq!(scan(&rules, &[]), vec![0]);
    let condition = or(Expr::True { span: span() }, compare(CmpOp::Gt, offset("$a"), number(0)));
    let rules = compile(&[], vec![rule("r", &["$a"], condition)]).unwrap();
    assert_eq!(scan(&rules, &[]), vec![0]);
}

#[test]
fn undefined_and_true_does_not_match() {
    let condition = and(compare(CmpOp::Ge, offset("$a"), number(0)), Expr::True { span: span() });
    let rules = compile(&[], vec![rule("r", &["$a"], condition)]).unwrap();
    assert_eq!(scan(&rules, &[]), Vec::<i32>::new());
    assert_eq!(scan(&rules, &[(0, 0)]), vec![0]);
    let condition = and(Expr::True { span: span() }, compare(CmpOp::Ge, offset("$a"), number(0)));
    let rules = compile(&[], vec![rule("r", &["$a"], condition)]).unwrap();
    assert_eq!(scan(&rules, &[]), Vec::<i32>::new());
}

#[test]
fn undefined_or_false_does_not_match() {
    let condition = or(compare(CmpOp::Ge, offset("$a"), number(0)), Expr::False { span: span() });
    let rules = compile(&[], vec![rule("r", &["$a"], condition)]).unwrap();
    assert_eq!(scan(&rules, &[]), Vec::<i32>::new());
    assert_eq!(scan(&rules, &[(0, 3)]), vec![0]);
}

#[test]
fn undefined_condition_does_not_match() {
    // The offset of a pattern that did not match is undefined, here and
    // under `not`.
    let rules = compile(
        &[],
        vec![
            rule("plain", &["$a"], compare(CmpOp::Eq, offset("$a"), number(5))),
            rule("negated", &["$a"], not(compare(CmpOp::Eq, offset("$a"), number(5)))),
            rule("bare", &["$a"], offset("$a")),
        ],
    )
    .unwrap();
    assert_eq!(scan(&rules, &[]), Vec::<i32>::new());
    assert_eq!(scan(&rules, &[(0, 5)]), vec![0]);
    assert_eq!(scan(&rules, &[(1, 4)]), vec![1]);
    assert_eq!(scan(&rules, &[(2, 4)]), vec![2]);
    assert_eq!(scan(&rules, &[(2, 0)]), Vec::<i32>::new());
}

#[test]
fn pattern_match_is_queried_by_number() {
    let rules = compile(
        &[],
        vec![
            rule("first", &["$a", "$b"], matched("$b")),
            rule("second", &["$a"], and(matched("$a"), not(matched("$a")))),
            rule("third", &["$c"], or(matched("$c"), Expr::False { span: span() })),
        ],
    )
    .unwrap();
    assert_eq!(scan(&rules, &[(1, 0)]), vec![0]);
    assert_eq!(scan(&rules, &[(0, 0), (2, 0)]), Vec::<i32>::new());
    assert_eq!(scan(&rules, &[(3, 0)]), vec![2]);
}

#[test]
fn conditions_of_other_types_count_as_booleans() {
    let float = |value: f64| Expr::LiteralFlt { bits: value.to_bits(), span: span() };
    let rules = compile(
        &[],
        vec![
            rule("zero", &[], number(0)),
            rule("seven", &[], number(7)),
            rule("negative", &[], number(-1)),
            rule("empty", &[], text("")),
            rule("text", &[], text("a")),
            rule("float_zero", &[], float(0.0)),
            rule("float_minus_zero", &[], float(-0.0)),
            rule("float", &[], float(0.5)),
            rule("not_text", &[], not(text("abc"))),
        ],
    )
    .unwrap();
    assert_eq!(scan(&rules, &[]), vec![1, 2, 4, 7]);
}

#[test]
fn floats_are_compared_as_numbers() {
    let float = |value: f64| Expr::LiteralFlt { bits: value.to_bits(), span: span() };
    let nan = f64::NAN;
    let cases: Vec<(CmpOp, f64, f64)> = vec![
        (CmpOp::Lt, 0.5, 1.5),
        (CmpOp::Lt, 1.5, 0.5),
        (CmpOp::Lt, -1.5, 0.5),
        (CmpOp::Lt, -1.5, -2.5),
        (CmpOp::Gt, -1.5, -2.5),
        (CmpOp::Eq, 0.0, -0.0),
        (CmpOp::Lt, -0.0, 0.0),
        (CmpOp::Le, -0.0, 0.0),
        (CmpOp::Ge, 2.0, 2.0),
        (CmpOp::Ne, 2.0, 2.0),
        (CmpOp::Eq, nan, nan),
        (CmpOp::Ne, nan, nan),
        (CmpOp::Ne, nan, 1.0),
        (CmpOp::Lt, nan, 1.0),
        (CmpOp::Ge, nan, 1.0),
        (CmpOp::Le, 1.0, nan),
        (CmpOp::Lt, f64::NEG_INFINITY, f64::MIN),
        (CmpOp::Gt, f64::INFINITY, f64::MAX),
        (CmpOp::Lt, f64::MIN_POSITIVE, 0.0),
        (CmpOp::Gt, 1e300, -1e300),
    ];
    let expected: Vec<i32> = cases
        .iter()
        .enumerate()
        .filter(|(_, (op, a, b))| match op {
            CmpOp::Eq => a == b,
            CmpOp::Ne => a != b,
            CmpOp::Lt => a < b,
            CmpOp::Gt => a > b,
            CmpOp::Le => a <= b,
            CmpOp::Ge => a >= b,
        })
        .map(|(i, _)| i as i32)
        .collect();
    assert_eq!(expected, vec![0, 2, 4, 5, 7, 8, 11, 12, 16, 17, 19]);
    let rules = compile(
        &[],
        cases.iter().map(|(op, a, b)| rule("r", &[], compare(*op, float(*a), float(*b)))).collect(),
    )
    .unwrap();
    assert_eq!(scan(&rules, &[]), expected);
}

#[test]
fn strings_are_equal_byte_for_byte() {
    let rules = compile(
        &[],
        vec![
            rule("same", &[], compare(CmpOp::Eq, text("abc"), text("abc"))),
            rule("case", &[], compare(CmpOp::Eq, text("abc"), text("abC"))),
            rule("prefix", &[], compare(CmpOp::Eq, text("abc"), text("ab"))),
            rule("empty", &[], compare(CmpOp::Eq, text(""), text(""))),
            rule("differ", &[], compare(CmpOp::Ne, text("abc"), text("abd"))),
            rule("do_not_differ", &[], compare(CmpOp::Ne, text("abc"), text("abc"))),
            rule("negated", &[], not(compare(CmpOp::Eq, text("x"), text("y")))),
        ],
    )
    .unwrap();
    assert_eq!(scan(&rules, &[]), vec![0, 3, 4, 6]);
    // Every string is in the table once.
    assert_eq!(
        rules.string_table(),
        &vec![
            b"abc".to_vec(),
            b"abC".to_vec(),
            b"ab".to_vec(),
            b"".to_vec(),
            b"abd".to_vec(),
            b"x".to_vec(),
            b"y".to_vec(),
        ]
    );
}

#[test]
fn base_outside_range_is_undefined() {
    let to_int = |s: &str, base: i64| call("string", "to_int", vec![text(s), number(base)]);
    let rules = compile(
        &["string"],
        vec![
            rule("base_2", &[], compare(CmpOp::Eq, to_int("101", 2), number(5))),
            rule("base_36", &[], compare(CmpOp::Eq, to_int("z", 36), number(35))),
            rule("base_1", &[], compare(CmpOp::Eq, to_int("0", 1), number(0))),
            rule("base_37", &[], compare(CmpOp::Eq, to_int("0", 37), number(0))),
            rule("base_1_negated", &[], not(compare(CmpOp::Eq, to_int("0", 1), number(0)))),
            rule("base_negative", &[], compare(CmpOp::Ne, to_int("0", -5), number(1))),
        ],
    )
    .unwrap();
    assert_eq!(scan(&rules, &[]), vec![0, 1]);
}
