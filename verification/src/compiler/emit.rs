//! The code generator. An expression becomes code that leaves its value
//! on the stack; where the value is undefined the code branches to the
//! innermost handler instead: it raises.
//!
//! A handler is a block, and the handlers that enclose the code being
//! generated are kept on a stack. A handled region is made of two blocks:
//! a raise in its try code leaves the inner one, after which the fallback
//! of the region is pushed, and the end of the try code leaves the outer
//! one with the value of the try code.
//!
//! `and` and `or` handle each operand by itself, so that an operand that
//! is undefined has a state like one that is true or false, and decide
//! from the two states whether they are true, false or undefined. Where
//! they are undefined they raise in their turn.
use vstd::prelude::*;
use crate::ast::{CmpOp, Expr, Type};
use crate::compiler::errors::{CompileError, TypeSet};
use crate::compiler::semcheck::{
    arg_types, call_signature, check, resolve, resolve_spec, signature_of, type_check, type_of,
};
use crate::compiler::{find_pattern, Context, Env, HandlerFrame, RuleId};
use crate::symbol_table::{FuncSignature, TypeValue};
use crate::wasm::{
    depths, lemma_ops_concat, lemma_ops_empty, lemma_ops_push, op_of, ops, Instr, Op, ValType,
};

verus! {

/// All bits of a 64-bit floating-point number but its sign: they are 0 in
/// the two zeros and in no other number.
pub const FLOAT_MAGNITUDE: i64 = 0x7fff_ffff_ffff_ffff;

/// The code of a handled region: the try code runs in a block of its own,
/// in which a branch of depth 0 is a raise. Where the try code ends, its
/// value leaves the region; where it raises, the except code runs and
/// leaves its value in place of it.
pub open spec fn try_except_code(ty: ValType, try_code: Seq<Op>, except_code: Seq<Op>) -> Seq<Op> {
    seq![
        Op::Block {
            ty: Some(ty),
            body: seq![Op::Block { ty: None, body: try_code.push(Op::Br(1)) }] + except_code,
        },
    ]
}

/// The state that stands for an operand of `and` and `or` that is
/// undefined. The operand that decides, false for `and` and true for
/// `or`, has the state 0, and the other defined operand has the state 1.
pub const UNDEFINED_STATE: i32 = 2;

/// The code of `e` as a boolean, negated where that is asked for, in a
/// handled region of its own that leaves `fallback` where `e` is
/// undefined.
pub open spec fn handled_code(env: Env, e: Expr, negate: bool, fallback: int) -> Seq<Op>
    decreases e, 3nat, 0nat,
{
    try_except_code(
        ValType::I32,
        if negate {
            bool_code(env, e, 0).push(Op::I32Eqz)
        } else {
            bool_code(env, e, 0)
        },
        seq![Op::I32Const(fallback)],
    )
}

/// The code of `and` and `or` from the code that leaves the states of
/// the two operands. The product of the states is 0 where an operand
/// decides, 1 where neither decides and both are defined, and more where
/// neither decides and one is undefined: the code leaves `decided`, the
/// other boolean, or raises.
pub open spec fn combined_code(first: Seq<Op>, second: Seq<Op>, decided: int, h: nat) -> Seq<Op> {
    let choice = Op::BrTable { targets: seq![0nat, 2nat, 1nat], default: 1 };
    let states = Op::Block { ty: None, body: (first + second).push(Op::I32Mul).push(choice) };
    let undefined = Op::Block { ty: None, body: seq![states, Op::I32Const(decided), Op::Br(2)] };
    let other = Op::Block { ty: None, body: seq![undefined, Op::Br(h + 2)] };
    seq![Op::Block { ty: Some(ValType::I32), body: seq![other, Op::I32Const(1 - decided)] }]
}

/// The number that stands for a boolean.
pub open spec fn bit(b: bool) -> int {
    if b {
        1
    } else {
        0
    }
}

/// The value of a symbol as the stack holds it, where the symbol has a
/// value that is known.
pub open spec fn known_value(v: TypeValue) -> Option<Op> {
    match v {
        TypeValue::Bool(Some(b)) => Some(Op::I32Const(bit(b))),
        TypeValue::Integer(Some(i)) => Some(Op::I64Const(i as int)),
        TypeValue::Float(Some(bits)) => Some(Op::I64Const((bits as i64) as int)),
        TypeValue::String(Some(s)) => Some(Op::StrConst(s@)),
        _ => None,
    }
}

/// Whether the code of `e` is nothing but a raise: `e` is a name whose
/// value is not known.
pub open spec fn raises(env: Env, e: Expr) -> bool {
    (e is Ident || e is FieldAccess) && match resolve_spec(env.root, env.scope, e) {
        Ok(v) => known_value(v).is_none(),
        Err(_) => true,
    }
}

/// The code that turns a value of type `ty` into a boolean: a number is
/// true if it is not zero, a string if it is not empty.
pub open spec fn truth_code(ty: Type) -> Seq<Op> {
    match ty {
        Type::Integer => seq![Op::I64Const(0), Op::I64Cmp(CmpOp::Ne)],
        Type::Float => seq![
            Op::I64Const(FLOAT_MAGNITUDE as int),
            Op::I64And,
            Op::I64Const(0),
            Op::I64Cmp(CmpOp::Ne),
        ],
        Type::String => seq![Op::StrLen, Op::I64Const(0), Op::I64Cmp(CmpOp::Ne)],
        _ => Seq::empty(),
    }
}

/// The code that makes of a value of the type `ty` what can be compared:
/// the bits of a floating-point number are taken for the number.
pub open spec fn operand_code(ty: Result<Type, CompileError>) -> Seq<Op> {
    if ty == Ok::<Type, CompileError>(Type::Float) {
        seq![Op::FloatFromBits]
    } else {
        Seq::empty()
    }
}

/// The code that compares two values of the type `ty`: integers as
/// signed numbers, floating-point numbers as such, strings for equality.
pub open spec fn compare_code(op: CmpOp, ty: Result<Type, CompileError>) -> Seq<Op> {
    if ty == Ok::<Type, CompileError>(Type::Float) {
        seq![Op::FloatCmp(op)]
    } else if ty == Ok::<Type, CompileError>(Type::String) {
        if op == CmpOp::Ne {
            seq![Op::StrEq, Op::I32Eqz]
        } else {
            seq![Op::StrEq]
        }
    } else {
        seq![Op::I64Cmp(op)]
    }
}

/// The code of `e`, where a raise is a branch of depth `h`.
pub open spec fn expr_code(env: Env, e: Expr, h: nat) -> Seq<Op>
    decreases e, 1nat, 0nat,
{
    match e {
        Expr::True { .. } => seq![Op::I32Const(1)],
        Expr::False { .. } => seq![Op::I32Const(0)],
        Expr::LiteralInt { value, .. } => seq![Op::I64Const(value as int)],
        Expr::LiteralFlt { bits, .. } => seq![Op::I64Const((bits as i64) as int)],
        Expr::LiteralStr { value, .. } => seq![Op::StrConst(value@)],
        Expr::Ident { .. } | Expr::FieldAccess { .. } => match resolve_spec(env.root, env.scope, e) {
            Ok(v) => match known_value(v) {
                Some(op) => seq![op],
                None => seq![Op::Br(h)],
            },
            Err(_) => seq![Op::Br(h)],
        },
        Expr::PatternMatch { ident, .. } => match find_pattern(env.pool, env.patterns, ident@) {
            Some(id) => seq![Op::I32Const(id as int), Op::PatMatch],
            None => seq![Op::Br(h)],
        },
        Expr::PatternOffset { ident, .. } => match find_pattern(env.pool, env.patterns, ident@) {
            Some(id) => seq![Op::I32Const(id as int), Op::PatOffset, Op::BrIf(h)],
            None => seq![Op::Br(h)],
        },
        Expr::Not { operand, .. } => bool_code(env, *operand, h).push(Op::I32Eqz),
        Expr::And { lhs, rhs, .. } => combined_code(
            handled_code(env, *lhs, false, UNDEFINED_STATE as int),
            handled_code(env, *rhs, false, UNDEFINED_STATE as int),
            0,
            h,
        ),
        Expr::Or { lhs, rhs, .. } => combined_code(
            handled_code(env, *lhs, true, UNDEFINED_STATE as int),
            handled_code(env, *rhs, true, UNDEFINED_STATE as int),
            1,
            h,
        ),
        Expr::Cmp { op, lhs, rhs, .. } => expr_code(env, *lhs, h) + operand_code(
            type_of(env, *lhs),
        ) + expr_code(env, *rhs, h) + operand_code(type_of(env, *lhs)) + compare_code(
            op,
            type_of(env, *lhs),
        ),
        Expr::FnCall { args, .. } => match signature_of(env, e) {
            Ok(sig) => args_code(env, e, args@.len(), h) + call_code(sig, h),
            Err(_) => seq![Op::Br(h)],
        },
    }
}

/// The code that calls a function by the signature `sig` once its
/// arguments are on the stack: the call, a raise where the result is
/// undefined, and for a boolean result what makes it 0 or 1.
pub open spec fn call_code(sig: FuncSignature, h: nat) -> Seq<Op> {
    let call = seq![Op::Call { func_id: sig.func_id as int, nargs: sig.args@.len() }, Op::BrIf(h)];
    if sig.result == Type::Bool {
        call + seq![Op::I32Eqz, Op::I32Eqz]
    } else {
        call
    }
}

/// The code of the first `n` arguments of the call `e`.
pub open spec fn args_code(env: Env, e: Expr, n: nat, h: nat) -> Seq<Op>
    decreases e, 0nat, n,
{
    match e {
        Expr::FnCall { args, .. } => if n == 0 || n > args@.len() {
            Seq::empty()
        } else {
            args_code(env, e, (n - 1) as nat, h) + expr_code(env, args@[n - 1], h)
        },
        _ => Seq::empty(),
    }
}

/// The code of `e` as a boolean.
pub open spec fn bool_code(env: Env, e: Expr, h: nat) -> Seq<Op>
    decreases e, 2nat, 0nat,
{
    if raises(env, e) {
        expr_code(env, e, h)
    } else {
        match type_of(env, e) {
            Ok(ty) => expr_code(env, e, h) + truth_code(ty),
            Err(_) => expr_code(env, e, h),
        }
    }
}

/// The code of a rule: the condition as a boolean, false where it is
/// undefined; then, unless it is false, the report that the rule matched.
pub open spec fn rule_code(env: Env, condition: Expr, rule_id: RuleId) -> Seq<Op> {
    seq![
        Op::Block {
            ty: None,
            body: handled_code(env, condition, false, 0) + seq![
                Op::I32Eqz,
                Op::BrIf(0),
                Op::I32Const(rule_id as int),
                Op::RuleMatch,
            ],
        },
    ]
}

/// Appends one instruction.
fn push_instr(code: &mut Vec<Instr>, instr: Instr)
    ensures
        final(code)@ == old(code)@.push(instr),
        ops(final(code)@) == ops(old(code)@).push(op_of(instr)),
{
    proof {
        lemma_ops_push(code@, instr);
    }
    code.push(instr);
}

/// Every argument of a call that has a signature has a scalar type.
pub proof fn lemma_args_typed(env: Env, e: Expr, n: nat, i: int)
    requires
        e is FnCall,
        n <= e->args@.len(),
        arg_types(env, e, n) is Ok,
        0 <= i < n,
    ensures
        check(env, TypeSet::scalars_spec(), e->args@[i]) is Ok,
        type_of(env, e->args@[i]) is Ok,
    decreases n,
{
    if i < n - 1 {
        lemma_args_typed(env, e, (n - 1) as nat, i);
    }
}

/// Installs a handler for the code that is generated next: a raise in it
/// is a branch of depth 0.
pub fn enter_try(ctx: &mut Context, ty: ValType)
    ensures
        final(ctx).exception_handler_stack@ == old(ctx).exception_handler_stack@.push(
            HandlerFrame { ty, depth: 0 },
        ),
        final(ctx).root_sym_tbl == old(ctx).root_sym_tbl,
        final(ctx).current_struct == old(ctx).current_struct,
        final(ctx).ident_pool == old(ctx).ident_pool,
        final(ctx).current_rule == old(ctx).current_rule,
        final(ctx).warnings@ == old(ctx).warnings@,
        final(ctx).raise_emitted == old(ctx).raise_emitted,
{
    ctx.exception_handler_stack.push(HandlerFrame { ty, depth: 0 });
}

/// Closes the innermost handled region: removes its handler and appends
/// the region, made of the code that was generated under the handler and
/// of the code that runs in its place after a raise.
pub fn try_except(
    ctx: &mut Context,
    code: &mut Vec<Instr>,
    ty: ValType,
    try_code: Vec<Instr>,
    except_code: Vec<Instr>,
)
    requires
        old(ctx).exception_handler_stack@.len() > 0,
    ensures
        final(ctx).exception_handler_stack@ == old(ctx).exception_handler_stack@.drop_last(),
        final(ctx).root_sym_tbl == old(ctx).root_sym_tbl,
        final(ctx).current_struct == old(ctx).current_struct,
        final(ctx).ident_pool == old(ctx).ident_pool,
        final(ctx).current_rule == old(ctx).current_rule,
        final(ctx).warnings@ == old(ctx).warnings@,
        !final(ctx).raise_emitted,
        ops(final(code)@) == ops(old(code)@) + try_except_code(
            ty,
            ops(try_code@),
            ops(except_code@),
        ),
{
    ctx.exception_handler_stack.pop();
    ctx.raise_emitted = false;
    let mut try_code = try_code;
    let mut except_code = except_code;
    let ghost try_ops = ops(try_code@);
    let ghost except_ops = ops(except_code@);
    push_instr(&mut try_code, Instr::Br(1));
    let mut body: Vec<Instr> = Vec::new();
    proof {
        lemma_ops_empty();
        assert(body@ =~= Seq::<Instr>::empty());
    }
    push_instr(&mut body, Instr::Block { ty: None, body: try_code });
    proof {
        lemma_ops_concat(body@, except_code@);
    }
    body.append(&mut except_code);
    let ghost before = ops(code@);
    push_instr(code, Instr::Block { ty: Some(ty), body });
    proof {
        assert(ops(body@) =~= seq![Op::Block { ty: None, body: try_ops.push(Op::Br(1)) }]
            + except_ops);
        assert(ops(code@) =~= before + try_except_code(ty, try_ops, except_ops));
    }
}

/// Generates a raise: a branch to the innermost handler. There must be a
/// handler.
pub fn raise(ctx: &mut Context, code: &mut Vec<Instr>)
    requires
        old(ctx).exception_handler_stack@.len() > 0,
    ensures
        final(ctx).same_but_flag(old(ctx)),
        final(ctx).raise_emitted,
        ops(final(code)@) == ops(old(code)@).push(Op::Br(old(ctx).handler_depth())),
{
    let n = ctx.exception_handler_stack.len();
    let depth = ctx.exception_handler_stack[n - 1].depth;
    push_instr(code, Instr::Br(depth));
    ctx.raise_emitted = true;
}

/// Generates the code of a name: its value where that is known, a raise
/// where it is not.
fn emit_symbol(ctx: &mut Context, code: &mut Vec<Instr>, e: &Expr)
    requires
        e is Ident || e is FieldAccess,
        old(ctx).exception_handler_stack@.len() > 0,
    ensures
        final(ctx).same_but_flag(old(ctx)),
        final(ctx).raise_emitted == raises(old(ctx).env(), *e),
        ops(final(code)@) == ops(old(code)@) + expr_code(
            old(ctx).env(),
            *e,
            old(ctx).handler_depth(),
        ),
{
    let ghost env = ctx.env();
    let ghost h = ctx.handler_depth();
    let ghost before = ops(code@);
    match resolve(ctx.root_sym_tbl, ctx.current_struct, e) {
        Ok(TypeValue::Bool(Some(b))) => {
            push_instr(code, Instr::I32Const(if *b { 1 } else { 0 }));
            ctx.raise_emitted = false;
        },
        Ok(TypeValue::Integer(Some(i))) => {
            push_instr(code, Instr::I64Const(*i));
            ctx.raise_emitted = false;
        },
        Ok(TypeValue::Float(Some(bits))) => {
            push_instr(code, Instr::I64Const(*bits as i64));
            ctx.raise_emitted = false;
        },
        Ok(TypeValue::String(Some(s))) => {
            push_instr(code, Instr::StrConst(s.clone()));
            ctx.raise_emitted = false;
        },
        _ => {
            raise(ctx, code);
        },
    }
    proof {
        assert(ops(code@) =~= before + expr_code(env, *e, h));
    }
}

/// Generates the code of a call: the arguments from left to right, the
/// call, and a raise where the result is undefined.
fn emit_call(ctx: &mut Context, code: &mut Vec<Instr>, e: &Expr)
    requires
        e is FnCall,
        old(ctx).wf(),
        type_of(old(ctx).env(), *e) is Ok,
        old(ctx).exception_handler_stack@.len() > 0,
        old(ctx).handler_depth() <= u32::MAX - 2,
    ensures
        final(ctx).same_but_flag(old(ctx)),
        !final(ctx).raise_emitted,
        ops(final(code)@) == ops(old(code)@) + expr_code(
            old(ctx).env(),
            *e,
            old(ctx).handler_depth(),
        ),
    decreases *e, 0nat, 0nat,
{
    let ghost env = ctx.env();
    let ghost h = ctx.handler_depth();
    let ghost before = ops(code@);
    match e {
        Expr::FnCall { callee, args, span } => {
            let (func_id, result, nargs) = match call_signature(ctx, e) {
                Ok(sig) => (sig.func_id, sig.result, sig.args.len()),
                Err(_) => (0, Type::Bool, 0),
            };
            let ghost sig = signature_of(env, *e).unwrap();
            let depth = ctx.exception_handler_stack[ctx.exception_handler_stack.len() - 1].depth;
            let mut i: usize = 0;
            proof {
                assert(ops(code@) =~= before + args_code(env, *e, 0, h));
            }
            while i < args.len()
                invariant
                    0 <= i <= args@.len(),
                    *e == (Expr::FnCall { callee: *callee, args: *args, span: *span }),
                    ctx.wf(),
                    ctx.env() == env,
                    ctx.handler_depth() == h,
                    h <= u32::MAX - 2,
                    ctx.exception_handler_stack@.len() > 0,
                    ctx.same_but_flag(old(ctx)),
                    arg_types(env, *e, args@.len()) is Ok,
                    ops(code@) == before + args_code(env, *e, i as nat, h),
                decreases args@.len() - i,
            {
                proof {
                    lemma_args_typed(env, *e, args@.len(), i as int);
                }
                let ghost so_far = ops(code@);
                emit_expr(ctx, code, &args[i]);
                proof {
                    assert(args_code(env, *e, (i + 1) as nat, h) == args_code(env, *e, i as nat, h)
                        + expr_code(env, args@[i as int], h));
                    assert(ops(code@) =~= before + args_code(env, *e, (i + 1) as nat, h));
                }
                i = i + 1;
            }
            let ghost with_args = ops(code@);
            push_instr(code, Instr::Call { func_id, nargs });
            push_instr(code, Instr::BrIf(depth));
            if result == Type::Bool {
                push_instr(code, Instr::I32Eqz);
                push_instr(code, Instr::I32Eqz);
            }
            ctx.raise_emitted = false;
            proof {
                assert(ops(code@) =~= with_args + call_code(sig, h));
                assert(ops(code@) =~= before + expr_code(env, *e, h));
            }
        },
        _ => {},
    }
}

/// Generates the code of a comparison: the two operands, each made
/// into what can be compared, and the comparison for their type.
fn emit_comparison(ctx: &mut Context, code: &mut Vec<Instr>, e: &Expr)
    requires
        *e is Cmp,
        old(ctx).wf(),
        type_of(old(ctx).env(), *e) is Ok,
        old(ctx).exception_handler_stack@.len() > 0,
        old(ctx).handler_depth() <= u32::MAX - 2,
    ensures
        final(ctx).same_but_flag(old(ctx)),
        !final(ctx).raise_emitted,
        ops(final(code)@) == ops(old(code)@) + expr_code(
            old(ctx).env(),
            *e,
            old(ctx).handler_depth(),
        ),
    decreases *e, 0nat, 0nat,
{
    let ghost env = ctx.env();
    let ghost h = ctx.handler_depth();
    let ghost before = ops(code@);
    match e {
        Expr::Cmp { op, lhs, rhs, .. } => {
            let ty = match type_check(ctx, lhs) {
                Ok(ty) => ty,
                Err(_) => Type::Integer,
            };
            let ghost of = type_of(env, **lhs);
            emit_expr(ctx, code, lhs);
            if ty == Type::Float {
                push_instr(code, Instr::FloatFromBits);
            }
            let ghost first = ops(code@);
            emit_expr(ctx, code, rhs);
            if ty == Type::Float {
                push_instr(code, Instr::FloatFromBits);
            }
            let ghost operands = ops(code@);
            match ty {
                Type::Float => {
                    push_instr(code, Instr::FloatCmp(*op));
                },
                Type::String => {
                    push_instr(code, Instr::StrEq);
                    if *op == CmpOp::Ne {
                        push_instr(code, Instr::I32Eqz);
                    }
                },
                _ => {
                    push_instr(code, Instr::I64Cmp(*op));
                },
            }
            ctx.raise_emitted = false;
            proof {
                assert(first =~= before + expr_code(env, **lhs, h) + operand_code(of));
                assert(operands =~= first + expr_code(env, **rhs, h) + operand_code(of));
                assert(ops(code@) =~= operands + compare_code(*op, of));
                assert(ops(code@) =~= before + expr_code(env, *e, h));
            }
        },
        _ => {},
    }
}

/// Generates the code of `e`, which must have a type.
pub fn emit_expr(ctx: &mut Context, code: &mut Vec<Instr>, e: &Expr)
    requires
        old(ctx).wf(),
        type_of(old(ctx).env(), *e) is Ok,
        old(ctx).exception_handler_stack@.len() > 0,
        old(ctx).handler_depth() <= u32::MAX - 2,
    ensures
        final(ctx).same_but_flag(old(ctx)),
        final(ctx).raise_emitted == raises(old(ctx).env(), *e),
        ops(final(code)@) == ops(old(code)@) + expr_code(
            old(ctx).env(),
            *e,
            old(ctx).handler_depth(),
        ),
    decreases *e, 1nat, 0nat,
{
    let ghost env = ctx.env();
    let ghost h = ctx.handler_depth();
    let ghost before = ops(code@);
    match e {
        Expr::True { .. } => {
            push_instr(code, Instr::I32Const(1));
            ctx.raise_emitted = false;
        },
        Expr::False { .. } => {
            push_instr(code, Instr::I32Const(0));
            ctx.raise_emitted = false;
        },
        Expr::LiteralInt { value, .. } => {
            push_instr(code, Instr::I64Const(*value));
            ctx.raise_emitted = false;
        },
        Expr::LiteralFlt { bits, .. } => {
            push_instr(code, Instr::I64Const(*bits as i64));
            ctx.raise_emitted = false;
        },
        Expr::LiteralStr { value, .. } => {
            push_instr(code, Instr::StrConst(value.clone()));
            ctx.raise_emitted = false;
        },
        Expr::Ident { .. } | Expr::FieldAccess { .. } => {
            emit_symbol(ctx, code, e);
        },
        Expr::PatternMatch { ident, .. } => {
            let id = ctx.get_pattern_from_current_rule(ident.as_str());
            push_instr(code, Instr::I32Const(id));
            push_instr(code, Instr::PatMatch);
            ctx.raise_emitted = false;
        },
        Expr::PatternOffset { ident, .. } => {
            let id = ctx.get_pattern_from_current_rule(ident.as_str());
            let depth = ctx.exception_handler_stack[ctx.exception_handler_stack.len() - 1].depth;
            push_instr(code, Instr::I32Const(id));
            push_instr(code, Instr::PatOffset);
            push_instr(code, Instr::BrIf(depth));
            ctx.raise_emitted = false;
        },
        Expr::Not { operand, .. } => {
            emit_bool_expr(ctx, code, operand);
            push_instr(code, Instr::I32Eqz);
            ctx.raise_emitted = false;
        },
        Expr::And { .. } | Expr::Or { .. } => {
            emit_combined(ctx, code, e);
        },
        Expr::Cmp { .. } => {
            emit_comparison(ctx, code, e);
        },
        Expr::FnCall { .. } => {
            emit_call(ctx, code, e);
        },
    }
    proof {
        assert(ops(code@) =~= before + expr_code(env, *e, h));
    }
}

/// Generates the code of `and` and `or`: the states of the two operands,
/// and what leaves the result for their product or raises.
fn emit_combined(ctx: &mut Context, code: &mut Vec<Instr>, e: &Expr)
    requires
        *e is And || *e is Or,
        old(ctx).wf(),
        type_of(old(ctx).env(), *e) is Ok,
        old(ctx).exception_handler_stack@.len() > 0,
        old(ctx).handler_depth() <= u32::MAX - 2,
    ensures
        final(ctx).same_but_flag(old(ctx)),
        !final(ctx).raise_emitted,
        ops(final(code)@) == ops(old(code)@) + expr_code(
            old(ctx).env(),
            *e,
            old(ctx).handler_depth(),
        ),
    decreases *e, 0nat, 0nat,
{
    let (lhs, rhs, disjunction) = match e {
        Expr::And { lhs, rhs, .. } => (lhs, rhs, false),
        Expr::Or { lhs, rhs, .. } => (lhs, rhs, true),
        _ => {
            return ;
        },
    };
    let ghost env = ctx.env();
    let ghost before = ops(code@);
    let ghost first = handled_code(env, **lhs, disjunction, UNDEFINED_STATE as int);
    let ghost second = handled_code(env, **rhs, disjunction, UNDEFINED_STATE as int);
    let depth = ctx.exception_handler_stack[ctx.exception_handler_stack.len() - 1].depth;
    let decided: i32 = if disjunction { 1 } else { 0 };
    let mut states: Vec<Instr> = Vec::new();
    proof {
        lemma_ops_empty();
        assert(states@ =~= Seq::<Instr>::empty());
    }
    emit_handled(ctx, &mut states, lhs, disjunction, UNDEFINED_STATE);
    emit_handled(ctx, &mut states, rhs, disjunction, UNDEFINED_STATE);
    push_instr(&mut states, Instr::I32Mul);
    let mut targets: Vec<u32> = Vec::new();
    targets.push(0);
    targets.push(2);
    targets.push(1);
    proof {
        assert(depths(targets@) =~= seq![0nat, 2nat, 1nat]);
    }
    push_instr(&mut states, Instr::BrTable { targets, default: 1 });
    let ghost choice = Op::BrTable { targets: seq![0nat, 2nat, 1nat], default: 1 };
    proof {
        assert(ops(states@) =~= (first + second).push(Op::I32Mul).push(choice));
    }
    let mut undefined: Vec<Instr> = Vec::new();
    push_instr(&mut undefined, Instr::Block { ty: None, body: states });
    push_instr(&mut undefined, Instr::I32Const(decided));
    push_instr(&mut undefined, Instr::Br(2));
    let mut other: Vec<Instr> = Vec::new();
    push_instr(&mut other, Instr::Block { ty: None, body: undefined });
    push_instr(&mut other, Instr::Br(depth + 2));
    let mut result: Vec<Instr> = Vec::new();
    push_instr(&mut result, Instr::Block { ty: None, body: other });
    push_instr(&mut result, Instr::I32Const(1 - decided));
    proof {
        let states_block = Op::Block {
            ty: None,
            body: (first + second).push(Op::I32Mul).push(choice),
        };
        assert(ops(undefined@) =~= seq![states_block, Op::I32Const(decided as int), Op::Br(2)]);
        let undefined_block = Op::Block { ty: None, body: ops(undefined@) };
        assert(ops(other@) =~= seq![undefined_block, Op::Br((depth + 2) as nat)]);
        let other_block = Op::Block { ty: None, body: ops(other@) };
        assert(ops(result@) =~= seq![other_block, Op::I32Const(1 - decided)]);
    }
    push_instr(code, Instr::Block { ty: Some(ValType::I32), body: result });
    ctx.raise_emitted = false;
    proof {
        assert(ops(code@) =~= before + expr_code(env, *e, old(ctx).handler_depth()));
    }
}

/// Generates the code of `e` as a boolean, negated where that is asked
/// for, in a handled region of its own that leaves `fallback` where `e`
/// is undefined.
pub fn emit_handled(
    ctx: &mut Context,
    code: &mut Vec<Instr>,
    e: &Expr,
    negate: bool,
    fallback: i32,
)
    requires
        old(ctx).wf(),
        type_of(old(ctx).env(), *e) is Ok,
    ensures
        final(ctx).same_but_flag(old(ctx)),
        !final(ctx).raise_emitted,
        ops(final(code)@) == ops(old(code)@) + handled_code(
            old(ctx).env(),
            *e,
            negate,
            fallback as int,
        ),
    decreases *e, 3nat, 0nat,
{
    enter_try(ctx, ValType::I32);
    let mut try_code: Vec<Instr> = Vec::new();
    let mut except_code: Vec<Instr> = Vec::new();
    proof {
        lemma_ops_empty();
        assert(try_code@ =~= Seq::<Instr>::empty());
        assert(except_code@ =~= Seq::<Instr>::empty());
    }
    emit_bool_expr(ctx, &mut try_code, e);
    if negate {
        push_instr(&mut try_code, Instr::I32Eqz);
    }
    push_instr(&mut except_code, Instr::I32Const(fallback));
    proof {
        assert(ops(except_code@) =~= seq![Op::I32Const(fallback as int)]);
        assert(ctx.exception_handler_stack@.drop_last() =~= old(ctx).exception_handler_stack@);
    }
    try_except(ctx, code, ValType::I32, try_code, except_code);
}

/// Generates the code of `e` as a boolean: the code of `e`, then what
/// turns a number or a string into a boolean. After a raise nothing is
/// generated.
pub fn emit_bool_expr(ctx: &mut Context, code: &mut Vec<Instr>, e: &Expr)
    requires
        old(ctx).wf(),
        type_of(old(ctx).env(), *e) is Ok,
        old(ctx).exception_handler_stack@.len() > 0,
        old(ctx).handler_depth() <= u32::MAX - 2,
    ensures
        final(ctx).same_but_flag(old(ctx)),
        ops(final(code)@) == ops(old(code)@) + bool_code(
            old(ctx).env(),
            *e,
            old(ctx).handler_depth(),
        ),
    decreases *e, 2nat, 0nat,
{
    let ghost env = ctx.env();
    let ghost h = ctx.handler_depth();
    let ghost before = ops(code@);
    let ty = match type_check(ctx, e) {
        Ok(ty) => ty,
        Err(_) => Type::Bool,
    };
    emit_expr(ctx, code, e);
    if !ctx.raise_emitted {
        match ty {
            Type::Integer => {
                push_instr(code, Instr::I64Const(0));
                push_instr(code, Instr::I64Cmp(CmpOp::Ne));
            },
            Type::Float => {
                push_instr(code, Instr::I64Const(FLOAT_MAGNITUDE));
                push_instr(code, Instr::I64And);
                push_instr(code, Instr::I64Const(0));
                push_instr(code, Instr::I64Cmp(CmpOp::Ne));
            },
            Type::String => {
                push_instr(code, Instr::StrLen);
                push_instr(code, Instr::I64Const(0));
                push_instr(code, Instr::I64Cmp(CmpOp::Ne));
            },
            _ => {},
        }
    }
    proof {
        assert(ops(code@) =~= before + bool_code(env, *e, h));
    }
}

/// Generates the code of a rule: the condition as a boolean in a handled
/// region that makes it false where it is undefined, then a branch past
/// the report if it is false, then the report that the rule matched.
pub fn emit_rule(ctx: &mut Context, code: &mut Vec<Instr>, condition: &Expr, rule_id: RuleId)
    requires
        old(ctx).wf(),
        type_of(old(ctx).env(), *condition) is Ok,
        old(ctx).exception_handler_stack@.len() == 0,
    ensures
        final(ctx).same_but_flag(old(ctx)),
        final(ctx).exception_handler_stack@.len() == 0,
        ops(final(code)@) == ops(old(code)@) + rule_code(old(ctx).env(), *condition, rule_id),
{
    let ghost env = ctx.env();
    let ghost before = ops(code@);
    let mut body: Vec<Instr> = Vec::new();
    proof {
        lemma_ops_empty();
        assert(body@ =~= Seq::<Instr>::empty());
    }
    emit_handled(ctx, &mut body, condition, false, 0);
    push_instr(&mut body, Instr::I32Eqz);
    push_instr(&mut body, Instr::BrIf(0));
    push_instr(&mut body, Instr::I32Const(rule_id));
    push_instr(&mut body, Instr::RuleMatch);
    proof {
        assert(ops(body@) =~= handled_code(env, *condition, false, 0) + seq![
            Op::I32Eqz,
            Op::BrIf(0),
            Op::I32Const(rule_id as int),
            Op::RuleMatch,
        ]);
    }
    push_instr(code, Instr::Block { ty: None, body });
    proof {
        assert(ops(code@) =~= before + rule_code(env, *condition, rule_id));
    }
}

} // verus!
