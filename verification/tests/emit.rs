use std::rc::Rc;

use yara_x::ast::{CmpOp, Expr, Span, Type};
use yara_x::compiler::emit::{
    emit_bool_expr, emit_expr, emit_handled, emit_rule, enter_try, raise, try_except,
};
use yara_x::compiler::{CompiledRule, Context, HandlerFrame};
use yara_x::ident_pool::IdentPool;
use yara_x::modules::host_functions;
use yara_x::modules::string::symbols;
use yara_x::symbol_table::{SymbolTable, TypeValue};
use yara_x::wasm::lower::assemble;
use yara_x::wasm::{Instr, ModuleBuilder, ValType};

fn here() -> Span {
    Span { start: 0, end: 0 }
}

fn symbol(name: &str) -> Expr {
    Expr::Ident { name: name.to_string(), span: here() }
}

fn boxed_symbol(name: &str) -> Box<Expr> {
    Box::new(symbol(name))
}

fn globals() -> SymbolTable {
    let mut root = SymbolTable::new();
    root.insert("string", TypeValue::Struct(Rc::new(symbols())));
    root.insert("yes", TypeValue::Bool(Some(true)));
    root.insert("no", TypeValue::Bool(Some(false)));
    root.insert("size", TypeValue::Integer(Some(-3)));
    root.insert("later", TypeValue::Integer(None));
    root.insert("ratio", TypeValue::Float(Some(0x3ff0_0000_0000_0000)));
    root.insert("minus", TypeValue::Float(Some(0x8000_0000_0000_0000)));
    root.insert("title", TypeValue::String(Some(b"abc".to_vec())));
    root
}

/// The instructions that `generate` gives in a rule with the patterns
/// `$a` (number 4) and `$b` (number 9), under one handler.
fn generated(generate: impl FnOnce(&mut Context, &mut Vec<Instr>)) -> Vec<Instr> {
    let root = globals();
    let mut pool = IdentPool::new();
    let rule = CompiledRule {
        patterns: vec![(pool.intern("$a"), 4), (pool.intern("$b"), 9)],
        ident: pool.intern("rule"),
    };
    let mut ctx = Context {
        root_sym_tbl: &root,
        current_struct: None,
        ident_pool: &pool,
        current_rule: &rule,
        warnings: Vec::new(),
        exception_handler_stack: vec![HandlerFrame { ty: ValType::I32, depth: 2 }],
        raise_emitted: false,
    };
    let mut code = Vec::new();
    generate(&mut ctx, &mut code);
    assert_eq!(ctx.exception_handler_stack, vec![HandlerFrame { ty: ValType::I32, depth: 2 }]);
    assert!(ctx.warnings.is_empty());
    code
}

fn code_of(e: Expr) -> Vec<Instr> {
    generated(|ctx, code| emit_expr(ctx, code, &e))
}

fn bool_code_of(e: Expr) -> Vec<Instr> {
    generated(|ctx, code| emit_bool_expr(ctx, code, &e))
}

/// A handled region that leaves `fallback` where `try_code` raises.
fn region(try_code: Vec<Instr>, fallback: i32) -> Instr {
    let mut inner = try_code;
    inner.push(Instr::Br(1));
    Instr::Block {
        ty: Some(ValType::I32),
        body: vec![Instr::Block { ty: None, body: inner }, Instr::I32Const(fallback)],
    }
}

/// The code of `and` (`decided` is 0) and `or` (`decided` is 1) around
/// the code that leaves the states of the operands, where a raise is a
/// branch of depth `handler`.
fn combined(first: Instr, second: Instr, decided: i32, handler: u32) -> Instr {
    let states = Instr::Block {
        ty: None,
        body: vec![
            first,
            second,
            Instr::I32Mul,
            Instr::BrTable { targets: vec![0, 2, 1], default: 1 },
        ],
    };
    let undefined =
        Instr::Block { ty: None, body: vec![states, Instr::I32Const(decided), Instr::Br(2)] };
    let other = Instr::Block { ty: None, body: vec![undefined, Instr::Br(handler + 2)] };
    Instr::Block { ty: Some(ValType::I32), body: vec![other, Instr::I32Const(1 - decided)] }
}

#[test]
fn literals_are_constants() {
    assert_eq!(code_of(Expr::True { span: here() }), vec![Instr::I32Const(1)]);
    assert_eq!(code_of(Expr::False { span: here() }), vec![Instr::I32Const(0)]);
    assert_eq!(code_of(Expr::LiteralInt { value: -7, span: here() }), vec![Instr::I64Const(-7)]);
    assert_eq!(
        code_of(Expr::LiteralFlt { bits: 0x8000_0000_0000_0001, span: here() }),
        vec![Instr::I64Const(i64::MIN + 1)]
    );
    assert_eq!(
        code_of(Expr::LiteralStr { value: b"xy".to_vec(), span: here() }),
        vec![Instr::StrConst(b"xy".to_vec())]
    );
}

#[test]
fn known_symbols_are_constants() {
    assert_eq!(code_of(symbol("yes")), vec![Instr::I32Const(1)]);
    assert_eq!(code_of(symbol("no")), vec![Instr::I32Const(0)]);
    assert_eq!(code_of(symbol("size")), vec![Instr::I64Const(-3)]);
    assert_eq!(code_of(symbol("ratio")), vec![Instr::I64Const(0x3ff0_0000_0000_0000)]);
    assert_eq!(code_of(symbol("minus")), vec![Instr::I64Const(i64::MIN)]);
    assert_eq!(code_of(symbol("title")), vec![Instr::StrConst(b"abc".to_vec())]);
}

#[test]
fn an_unknown_value_is_a_raise() {
    assert_eq!(code_of(symbol("later")), vec![Instr::Br(2)]);
    // Nothing follows the raise.
    assert_eq!(bool_code_of(symbol("later")), vec![Instr::Br(2)]);
    let flag = generated(|ctx, code| {
        emit_expr(ctx, code, &symbol("later"));
        assert!(ctx.raise_emitted);
        emit_expr(ctx, code, &symbol("size"));
        assert!(!ctx.raise_emitted);
    });
    assert_eq!(flag, vec![Instr::Br(2), Instr::I64Const(-3)]);
}

#[test]
fn raise_branches_to_the_innermost_handler() {
    let code = generated(|ctx, code| {
        raise(ctx, code);
        assert!(ctx.raise_emitted);
        enter_try(ctx, ValType::I64);
        assert_eq!(ctx.exception_handler_stack.len(), 2);
        let mut try_code = Vec::new();
        raise(ctx, &mut try_code);
        try_except(ctx, code, ValType::I64, try_code, vec![Instr::I64Const(8)]);
        assert!(!ctx.raise_emitted);
        raise(ctx, code);
    });
    assert_eq!(
        code,
        vec![
            Instr::Br(2),
            Instr::Block {
                ty: Some(ValType::I64),
                body: vec![
                    Instr::Block { ty: None, body: vec![Instr::Br(0), Instr::Br(1)] },
                    Instr::I64Const(8),
                ],
            },
            Instr::Br(2),
        ]
    );
}

#[test]
fn patterns_are_asked_for_by_number() {
    assert_eq!(
        code_of(Expr::PatternMatch { ident: "$b".to_string(), span: here() }),
        vec![Instr::I32Const(9), Instr::PatMatch]
    );
    assert_eq!(
        code_of(Expr::PatternOffset { ident: "$a".to_string(), span: here() }),
        vec![Instr::I32Const(4), Instr::PatOffset, Instr::BrIf(2)]
    );
}

#[test]
fn values_become_booleans() {
    assert_eq!(bool_code_of(symbol("yes")), vec![Instr::I32Const(1)]);
    assert_eq!(
        bool_code_of(symbol("size")),
        vec![Instr::I64Const(-3), Instr::I64Const(0), Instr::I64Cmp(CmpOp::Ne)]
    );
    assert_eq!(
        bool_code_of(symbol("minus")),
        vec![
            Instr::I64Const(i64::MIN),
            Instr::I64Const(i64::MAX),
            Instr::I64And,
            Instr::I64Const(0),
            Instr::I64Cmp(CmpOp::Ne),
        ]
    );
    assert_eq!(
        bool_code_of(symbol("title")),
        vec![
            Instr::StrConst(b"abc".to_vec()),
            Instr::StrLen,
            Instr::I64Const(0),
            Instr::I64Cmp(CmpOp::Ne),
        ]
    );
}

#[test]
fn not_negates_a_boolean() {
    let e = Expr::Not { operand: boxed_symbol("size"), span: here() };
    assert_eq!(
        code_of(e),
        vec![Instr::I64Const(-3), Instr::I64Const(0), Instr::I64Cmp(CmpOp::Ne), Instr::I32Eqz]
    );
}

#[test]
fn comparisons_compare_their_operands() {
    let e = Expr::Cmp {
        op: CmpOp::Ge,
        lhs: boxed_symbol("size"),
        rhs: Box::new(Expr::PatternOffset { ident: "$b".to_string(), span: here() }),
        span: here(),
    };
    assert_eq!(
        code_of(e),
        vec![
            Instr::I64Const(-3),
            Instr::I32Const(9),
            Instr::PatOffset,
            Instr::BrIf(2),
            Instr::I64Cmp(CmpOp::Ge),
        ]
    );
}

#[test]
fn floats_are_compared_as_floats() {
    let e = Expr::Cmp {
        op: CmpOp::Le,
        lhs: boxed_symbol("ratio"),
        rhs: Box::new(Expr::LiteralFlt { bits: 7, span: here() }),
        span: here(),
    };
    assert_eq!(
        code_of(e),
        vec![
            Instr::I64Const(0x3ff0_0000_0000_0000),
            Instr::FloatFromBits,
            Instr::I64Const(7),
            Instr::FloatFromBits,
            Instr::FloatCmp(CmpOp::Le),
        ]
    );
}

#[test]
fn strings_are_compared_by_the_host() {
    let compared = |op: CmpOp| Expr::Cmp {
        op,
        lhs: boxed_symbol("title"),
        rhs: Box::new(Expr::LiteralStr { value: b"abd".to_vec(), span: here() }),
        span: here(),
    };
    assert_eq!(
        code_of(compared(CmpOp::Eq)),
        vec![Instr::StrConst(b"abc".to_vec()), Instr::StrConst(b"abd".to_vec()), Instr::StrEq]
    );
    assert_eq!(
        code_of(compared(CmpOp::Ne)),
        vec![
            Instr::StrConst(b"abc".to_vec()),
            Instr::StrConst(b"abd".to_vec()),
            Instr::StrEq,
            Instr::I32Eqz,
        ]
    );
}

#[test]
fn and_multiplies_the_states_of_its_operands() {
    let e = Expr::And { lhs: boxed_symbol("later"), rhs: boxed_symbol("yes"), span: here() };
    assert_eq!(
        code_of(e),
        vec![combined(
            region(vec![Instr::Br(0)], 2),
            region(vec![Instr::I32Const(1)], 2),
            0,
            2,
        )]
    );
}

#[test]
fn or_multiplies_the_states_of_its_negated_operands() {
    let e = Expr::Or {
        lhs: boxed_symbol("no"),
        rhs: Box::new(Expr::PatternOffset { ident: "$a".to_string(), span: here() }),
        span: here(),
    };
    assert_eq!(
        code_of(e),
        vec![combined(
            region(vec![Instr::I32Const(0), Instr::I32Eqz], 2),
            region(
                vec![
                    Instr::I32Const(4),
                    Instr::PatOffset,
                    Instr::BrIf(0),
                    Instr::I64Const(0),
                    Instr::I64Cmp(CmpOp::Ne),
                    Instr::I32Eqz,
                ],
                2,
            ),
            1,
            2,
        )]
    );
}

#[test]
fn a_handled_region_leaves_its_fallback_after_a_raise() {
    let code = generated(|ctx, code| emit_handled(ctx, code, &symbol("size"), false, 0));
    assert_eq!(
        code,
        vec![region(vec![Instr::I64Const(-3), Instr::I64Const(0), Instr::I64Cmp(CmpOp::Ne)], 0)]
    );
    let code = generated(|ctx, code| emit_handled(ctx, code, &symbol("yes"), true, 7));
    assert_eq!(code, vec![region(vec![Instr::I32Const(1), Instr::I32Eqz], 7)]);
    // After a raise nothing is negated.
    let code = generated(|ctx, code| emit_handled(ctx, code, &symbol("later"), false, 2));
    assert_eq!(code, vec![region(vec![Instr::Br(0)], 2)]);
}

#[test]
fn a_call_passes_its_arguments_and_checks_its_result() {
    let e = Expr::FnCall {
        callee: Box::new(Expr::FieldAccess {
            lhs: boxed_symbol("string"),
            rhs: boxed_symbol("to_int"),
            span: here(),
        }),
        args: vec![symbol("title"), symbol("size")],
        span: here(),
    };
    assert_eq!(
        code_of(e),
        vec![
            Instr::StrConst(b"abc".to_vec()),
            Instr::I64Const(-3),
            Instr::Call { func_id: 2, nargs: 2 },
            Instr::BrIf(2),
        ]
    );
}

#[test]
fn a_call_of_a_boolean_function_makes_its_result_0_or_1() {
    let mut root = SymbolTable::new();
    root.insert(
        "even",
        TypeValue::Func(vec![yara_x::symbol_table::FuncSignature {
            args: vec![Type::Integer],
            result: Type::Bool,
            func_id: 1,
        }]),
    );
    let mut pool = IdentPool::new();
    let rule = CompiledRule { ident: pool.intern("r"), patterns: Vec::new() };
    let mut ctx = Context {
        root_sym_tbl: &root,
        current_struct: None,
        ident_pool: &pool,
        current_rule: &rule,
        warnings: Vec::new(),
        exception_handler_stack: vec![HandlerFrame { ty: ValType::I32, depth: 0 }],
        raise_emitted: true,
    };
    let e = Expr::FnCall {
        callee: boxed_symbol("even"),
        args: vec![Expr::LiteralInt { value: 4, span: here() }],
        span: here(),
    };
    let mut code = Vec::new();
    emit_expr(&mut ctx, &mut code, &e);
    assert!(!ctx.raise_emitted);
    assert_eq!(
        code,
        vec![
            Instr::I64Const(4),
            Instr::Call { func_id: 1, nargs: 1 },
            Instr::BrIf(0),
            Instr::I32Eqz,
            Instr::I32Eqz,
        ]
    );
}

#[test]
fn a_rule_reports_itself_unless_its_condition_is_false() {
    let root = globals();
    let mut pool = IdentPool::new();
    let rule = CompiledRule { ident: pool.intern("r"), patterns: Vec::new() };
    let mut ctx = Context {
        root_sym_tbl: &root,
        current_struct: None,
        ident_pool: &pool,
        current_rule: &rule,
        warnings: Vec::new(),
        exception_handler_stack: Vec::new(),
        raise_emitted: false,
    };
    let mut code = vec![Instr::I32Eqz];
    emit_rule(&mut ctx, &mut code, &symbol("yes"), 12);
    assert!(ctx.exception_handler_stack.is_empty());
    assert_eq!(
        code,
        vec![
            Instr::I32Eqz,
            Instr::Block {
                ty: None,
                body: vec![
                    region(vec![Instr::I32Const(1)], 0),
                    Instr::I32Eqz,
                    Instr::BrIf(0),
                    Instr::I32Const(12),
                    Instr::RuleMatch,
                ],
            },
        ]
    );
}

#[test]
fn valid_code_is_assembled() {
    let functions = host_functions();
    let code = vec![
        Instr::Block {
            ty: None,
            body: vec![
                Instr::StrConst(b"one".to_vec()),
                Instr::Call { func_id: 2, nargs: 1 },
                Instr::BrIf(0),
                Instr::I64Const(3),
                Instr::I64Cmp(CmpOp::Eq),
                Instr::IfElse {
                    ty: None,
                    consequent: vec![Instr::StrConst(b"two".to_vec()), Instr::StrLen, Instr::Br(1)],
                    alternative: vec![Instr::Br(0)],
                },
            ],
        },
        Instr::StrConst(b"three".to_vec()),
    ];
    let module = assemble(&code, &functions).unwrap();
    assert_eq!(&module.wasm[0..4], b"\0asm");
    assert_eq!(module.strings, vec![b"one".to_vec(), b"two".to_vec(), b"three".to_vec()]);
    let built = ModuleBuilder { main_body: code }.build(&functions).unwrap();
    assert_eq!(built.wasm, module.wasm);
    assert_eq!(built.strings, module.strings);
    assert!(ModuleBuilder::new().build(&functions).is_some());
}

#[test]
fn code_that_is_not_valid_is_not_assembled() {
    let functions = host_functions();
    // A branch that leaves no block.
    assert!(assemble(&vec![Instr::Br(0)], &functions).is_none());
    assert!(assemble(&vec![Instr::I32Const(1), Instr::BrIf(0)], &functions).is_none());
    let table = |targets: Vec<u32>, default: u32| {
        vec![Instr::Block {
            ty: None,
            body: vec![
                Instr::Block {
                    ty: None,
                    body: vec![Instr::I32Const(1), Instr::BrTable { targets, default }],
                },
                Instr::I32Const(2),
                Instr::I32Const(3),
                Instr::I32Mul,
                Instr::BrIf(0),
            ],
        }]
    };
    assert!(assemble(&table(vec![0, 1, 1, 0], 1), &functions).is_some());
    assert!(assemble(&table(vec![], 0), &functions).is_some());
    assert!(assemble(&table(vec![0, 1], 2), &functions).is_none());
    assert!(assemble(&table(vec![0, 2, 1], 1), &functions).is_none());
    let too_far = vec![Instr::Block { ty: None, body: vec![Instr::Br(1)] }];
    assert!(assemble(&too_far, &functions).is_none());
    let far_enough = vec![Instr::Block { ty: None, body: vec![Instr::Br(0)] }];
    assert!(assemble(&far_enough, &functions).is_some());
    let in_branch = vec![
        Instr::I32Const(1),
        Instr::IfElse { ty: None, consequent: vec![], alternative: vec![Instr::BrIf(1)] },
    ];
    assert!(assemble(&in_branch, &functions).is_none());
    // A call of a function that there is not.
    assert!(assemble(&vec![Instr::Call { func_id: 3, nargs: 0 }], &functions).is_none());
    assert!(assemble(&vec![Instr::Call { func_id: 2, nargs: 0 }], &functions).is_some());
    assert!(assemble(&vec![Instr::Call { func_id: 0, nargs: 0 }], &Vec::new()).is_none());
}
