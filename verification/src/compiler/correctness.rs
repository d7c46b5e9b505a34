//! The generated code computes what the conditions mean.
use vstd::prelude::*;
use crate::ast::{CmpOp, Expr, Type};
use crate::compiler::emit::{
    args_code, bit, bool_code, call_code, combined_code, compare_code, expr_code, handled_code,
    operand_code,
    lemma_args_typed, raises, rule_code, truth_code, try_except_code, FLOAT_MAGNITUDE,
    UNDEFINED_STATE,
};
use crate::compiler::errors::{CompileError, TypeSet};
use crate::compiler::semantics::{
    and64, arg_values, eval, holds, lemma_run_concat, lemma_run_empty, lemma_run_one, lemma_run_push,
    rule_matches, run, step, truth, truthy, wrap32, Host, Machine, Outcome,
};
use crate::compiler::semcheck::{
    arg_types, check, matching, operand_types, resolve_spec, signature_of, type_of,
};
use crate::compiler::{find_pattern, Env, RuleId};
use crate::symbol_table::FuncSignature;
use crate::wasm::{Op, ValType};

verus! {

/// Whether a run ended in a raise: a branch of depth `h` that reported
/// nothing.
pub open spec fn raised(o: Outcome, h: nat, m: Machine) -> bool {
    o is Branch && o->Branch_0 == h && o->Branch_1.reported == m.reported
}

/// Whether a run that began in `m` ended as the code of an expression
/// must: with the value pushed where there is one, in a raise where there
/// is none.
pub open spec fn yields(o: Outcome, m: Machine, v: Option<int>, h: nat) -> bool {
    match v {
        Some(x) => o == Outcome::Done(m.push(x)),
        None => raised(o, h, m),
    }
}

/// The machine with an empty stack and the reports of `m`.
pub open spec fn fresh(m: Machine) -> Machine {
    Machine { stack: Seq::empty(), reported: m.reported }
}

/// Two instructions run one after the other.
pub proof fn lemma_run_two(host: Host, a: Op, b: Op, m: Machine)
    ensures
        run(host, seq![a, b], m) == match step(host, a, m) {
            Outcome::Done(m1) => step(host, b, m1),
            other => other,
        },
{
    assert(seq![a, b] =~= seq![a].push(b));
    lemma_run_push(host, seq![a], b, m);
    lemma_run_one(host, a, m);
}

/// Three instructions run one after the other.
pub proof fn lemma_run_three(host: Host, a: Op, b: Op, c: Op, m: Machine)
    ensures
        run(host, seq![a, b, c], m) == match run(host, seq![a, b], m) {
            Outcome::Done(m1) => step(host, c, m1),
            other => other,
        },
{
    assert(seq![a, b, c] =~= seq![a, b].push(c));
    lemma_run_push(host, seq![a, b], c, m);
}

/// Four instructions run one after the other.
pub proof fn lemma_run_four(host: Host, a: Op, b: Op, c: Op, d: Op, m: Machine)
    ensures
        run(host, seq![a, b, c, d], m) == match run(host, seq![a, b, c], m) {
            Outcome::Done(m1) => step(host, d, m1),
            other => other,
        },
{
    assert(seq![a, b, c, d] =~= seq![a, b, c].push(d));
    lemma_run_push(host, seq![a, b, c], d, m);
}

/// Popping what was pushed gives the machine back.
pub proof fn lemma_push_pop(m: Machine, a: int, b: int)
    ensures
        m.push(a).pop(1) == m,
        m.push(a).top(0) == a,
        m.push(a).push(b).pop(2) == m,
        m.push(a).push(b).pop(1) == m.push(a),
        m.push(a).push(b).top(0) == b,
        m.push(a).push(b).top(1) == a,
{
    assert(m.push(a).pop(1).stack =~= m.stack);
    assert(m.push(a).push(b).pop(2).stack =~= m.stack);
    assert(m.push(a).push(b).pop(1).stack =~= m.push(a).stack);
}

/// The code that makes a boolean of a value leaves the truth of the
/// value.
pub proof fn lemma_truth_code(host: Host, ty: Type, m: Machine, v: int)
    requires
        ty == Type::Integer || ty == Type::Float || ty == Type::String || v == 0 || v == 1,
    ensures
        run(host, truth_code(ty), m.push(v)) == Outcome::Done(m.push(bit(truthy(host, ty, v)))),
{
    let start = m.push(v);
    match ty {
        Type::Integer => {
            lemma_run_two(host, Op::I64Const(0), Op::I64Cmp(CmpOp::Ne), start);
            lemma_push_pop(m, v, 0);
        },
        Type::Float => {
            let mask = FLOAT_MAGNITUDE as int;
            let a = Op::I64Const(mask);
            let c = Op::I64Const(0);
            let d = Op::I64Cmp(CmpOp::Ne);
            lemma_run_four(host, a, Op::I64And, c, d, start);
            lemma_run_three(host, a, Op::I64And, c, start);
            lemma_run_two(host, a, Op::I64And, start);
            lemma_push_pop(m, v, mask);
            lemma_push_pop(m, and64(v, mask), 0);
        },
        Type::String => {
            lemma_run_three(host, Op::StrLen, Op::I64Const(0), Op::I64Cmp(CmpOp::Ne), start);
            lemma_run_two(host, Op::StrLen, Op::I64Const(0), start);
            lemma_push_pop(m, v, 0);
            lemma_push_pop(m, host.texts[v].len() as int, 0);
        },
        _ => {
            lemma_run_empty(host, start);
        },
    }
}

/// A handled region leaves what its try code leaves, and the fallback
/// where the try code raises.
pub proof fn lemma_try_except(
    host: Host,
    try_code: Seq<Op>,
    fallback: int,
    m: Machine,
    v: Option<int>,
)
    requires
        yields(run(host, try_code, fresh(m)), fresh(m), v, 0),
    ensures
        run(host, try_except_code(ValType::I32, try_code, seq![Op::I32Const(fallback)]), m)
            == Outcome::Done(
            m.push(
                match v {
                    Some(x) => x,
                    None => fallback,
                },
            ),
        ),
{
    let m0 = fresh(m);
    let inner_body = try_code.push(Op::Br(1));
    let inner = Op::Block { ty: None, body: inner_body };
    let body = seq![inner] + seq![Op::I32Const(fallback)];
    let outer = Op::Block { ty: Some(ValType::I32), body };
    lemma_run_push(host, try_code, Op::Br(1), m0);
    lemma_run_one(host, outer, m);
    assert(body =~= seq![inner, Op::I32Const(fallback)]);
    lemma_run_two(host, inner, Op::I32Const(fallback), m0);
    assert(fresh(m0) == m0);
    match v {
        Some(x) => {
            let mx = m0.push(x);
            assert(run(host, inner_body, m0) == Outcome::Branch(1, mx));
            assert(step(host, inner, m0) == Outcome::Branch(0, mx));
            assert(run(host, body, m0) == Outcome::Branch(0, mx));
            assert(mx.stack.skip(mx.stack.len() - 1) =~= seq![x]);
            assert(m.stack + seq![x] =~= m.stack.push(x));
        },
        None => {
            let o = run(host, try_code, m0);
            let mx = o->Branch_1;
            assert(run(host, inner_body, m0) == Outcome::Branch(0, mx));
            assert(mx.stack.skip(mx.stack.len() - 0) =~= Seq::<int>::empty());
            assert(m0.stack + Seq::<int>::empty() =~= m0.stack);
            assert(step(host, inner, m0) == Outcome::Done(m0));
            assert(run(host, body, m0) == Outcome::Done(m0.push(fallback)));
            assert(m.stack + m0.push(fallback).stack =~= m.stack.push(fallback));
        },
    }
}

/// What the code of `and` and `or` does with the states of the two
/// operands: it leaves `decided` where a state is 0, the other boolean
/// where both are 1, and raises where neither is 0 and one is 2.
pub proof fn lemma_combined(
    host: Host,
    first: Seq<Op>,
    second: Seq<Op>,
    a: int,
    b: int,
    decided: int,
    h: nat,
    m: Machine,
)
    requires
        0 <= a <= 2,
        0 <= b <= 2,
        run(host, first, fresh(m)) == Outcome::Done(fresh(m).push(a)),
        run(host, second, fresh(m).push(a)) == Outcome::Done(fresh(m).push(a).push(b)),
    ensures
        yields(
            run(host, combined_code(first, second, decided, h), m),
            m,
            if a == 0 || b == 0 {
                Some(decided)
            } else if a == 1 && b == 1 {
                Some(1 - decided)
            } else {
                None
            },
            h,
        ),
{
    let f0 = fresh(m);
    let choice = Op::BrTable { targets: seq![0nat, 2nat, 1nat], default: 1 };
    let states_body = (first + second).push(Op::I32Mul).push(choice);
    let states = Op::Block { ty: None, body: states_body };
    let undefined_body = seq![states, Op::I32Const(decided), Op::Br(2)];
    let undefined = Op::Block { ty: None, body: undefined_body };
    let other_body = seq![undefined, Op::Br(h + 2)];
    let other = Op::Block { ty: None, body: other_body };
    let outer_body = seq![other, Op::I32Const(1 - decided)];
    let outer = Op::Block { ty: Some(ValType::I32), body: outer_body };
    let p = a * b;
    assert(p == 0 || p == 1 || p == 2 || p == 4) by {
        if a == 0 || b == 0 {
        } else if a == 1 {
        } else if b == 1 {
        } else {
            assert(a == 2 && b == 2);
        }
    }
    assert((p == 0) == (a == 0 || b == 0));
    assert((p == 1) == (a == 1 && b == 1));
    assert(wrap32(p) == p);
    assert(fresh(f0) == f0);
    // The states and their product.
    lemma_run_concat(host, first, second, f0);
    lemma_run_push(host, first + second, Op::I32Mul, f0);
    lemma_run_push(host, (first + second).push(Op::I32Mul), choice, f0);
    lemma_push_pop(f0, a, b);
    lemma_push_pop(f0, p, 0);
    let k: nat = if p == 0 {
        0
    } else if p == 1 {
        2
    } else {
        1
    };
    assert(run(host, states_body, f0) == Outcome::Branch(k, f0));
    assert(f0.stack.skip(f0.stack.len() - 0) =~= Seq::<int>::empty());
    assert(f0.stack + Seq::<int>::empty() =~= f0.stack);
    // The blocks around them, from the inside out.
    lemma_run_three(host, states, Op::I32Const(decided), Op::Br(2), f0);
    lemma_run_two(host, states, Op::I32Const(decided), f0);
    lemma_run_two(host, undefined, Op::Br(h + 2), f0);
    lemma_run_two(host, other, Op::I32Const(1 - decided), f0);
    lemma_run_one(host, outer, m);
    if p == 0 {
        let fd = f0.push(decided);
        assert(step(host, states, f0) == Outcome::Done(f0));
        assert(run(host, undefined_body, f0) == Outcome::Branch(2, fd));
        assert(step(host, undefined, f0) == Outcome::Branch(1, fd));
        assert(step(host, other, f0) == Outcome::Branch(0, fd));
        assert(fd.stack.skip(fd.stack.len() - 1) =~= seq![decided]);
        assert(m.stack + seq![decided] =~= m.push(decided).stack);
    } else if p == 1 {
        let fo = f0.push(1 - decided);
        assert(step(host, states, f0) == Outcome::Branch(1, f0));
        assert(step(host, undefined, f0) == Outcome::Branch(0, f0));
        assert(step(host, other, f0) == Outcome::Done(f0));
        assert(run(host, outer_body, f0) == Outcome::Done(fo));
        assert(m.stack + fo.stack =~= m.push(1 - decided).stack);
    } else {
        assert(step(host, states, f0) == Outcome::Branch(0, f0));
        assert(step(host, undefined, f0) == Outcome::Done(f0));
        assert(run(host, other_body, f0) == Outcome::Branch(h + 2, f0));
        assert(step(host, other, f0) == Outcome::Branch(h + 1, f0));
        assert(run(host, outer_body, f0) == Outcome::Branch(h + 1, f0));
    }
}

/// A signature that was found for arguments takes as many arguments as
/// there are.
pub proof fn lemma_matching(sigs: Seq<FuncSignature>, types: Seq<Type>)
    requires
        matching(sigs, types).is_some(),
    ensures
        matching(sigs, types).unwrap().args@ == types,
    decreases sigs.len(),
{
    if sigs[0].args@ != types {
        lemma_matching(sigs.skip(1), types);
    }
}

/// There are as many types of arguments as arguments.
pub proof fn lemma_arg_count(env: Env, host: Host, e: Expr, n: nat)
    requires
        e is FnCall,
        n <= e->args@.len(),
    ensures
        arg_types(env, e, n) is Ok ==> arg_types(env, e, n).unwrap().len() == n,
        arg_values(env, host, e, n).is_some() ==> arg_values(env, host, e, n).unwrap().len() == n,
    decreases n,
{
    if n > 0 {
        lemma_arg_count(env, host, e, (n - 1) as nat);
    }
}

/// A boolean that has a value has the value 0 or 1.
pub proof fn lemma_bool_valued(env: Env, host: Host, e: Expr)
    requires
        type_of(env, e) == Ok::<Type, CompileError>(Type::Bool),
        eval(env, host, e).is_some(),
    ensures
        eval(env, host, e).unwrap() == 0 || eval(env, host, e).unwrap() == 1,
{
}

/// The code of an expression leaves the value of the expression, and
/// raises where the expression is undefined.
pub proof fn lemma_expr(env: Env, host: Host, e: Expr, h: nat, m: Machine)
    requires
        type_of(env, e) is Ok,
    ensures
        yields(run(host, expr_code(env, e, h), m), m, eval(env, host, e), h),
    decreases e, 1nat, 0nat,
{
    let code = expr_code(env, e, h);
    match e {
        Expr::True { .. } => {
            lemma_run_one(host, Op::I32Const(1), m);
        },
        Expr::False { .. } => {
            lemma_run_one(host, Op::I32Const(0), m);
        },
        Expr::LiteralInt { value, .. } => {
            lemma_run_one(host, Op::I64Const(value as int), m);
        },
        Expr::LiteralFlt { bits, .. } => {
            lemma_run_one(host, Op::I64Const((bits as i64) as int), m);
        },
        Expr::LiteralStr { value, .. } => {
            lemma_run_one(host, Op::StrConst(value@), m);
        },
        Expr::Ident { .. } | Expr::FieldAccess { .. } => {
            assert(code.len() == 1);
            assert(code =~= seq![code[0]]);
            lemma_run_one(host, code[0], m);
        },
        Expr::PatternMatch { ident, .. } => {
            let id = find_pattern(env.pool, env.patterns, ident@).unwrap();
            lemma_run_two(host, Op::I32Const(id as int), Op::PatMatch, m);
            lemma_push_pop(m, id as int, 0);
        },
        Expr::PatternOffset { ident, .. } => {
            let id = find_pattern(env.pool, env.patterns, ident@).unwrap();
            lemma_run_three(host, Op::I32Const(id as int), Op::PatOffset, Op::BrIf(h), m);
            lemma_run_two(host, Op::I32Const(id as int), Op::PatOffset, m);
            lemma_push_pop(m, id as int, 0);
            if host.offsets.contains_key(id as int) {
                lemma_push_pop(m, host.offsets[id as int], 0);
            } else {
                lemma_push_pop(m, 0, 1);
            }
        },
        Expr::Not { operand, .. } => {
            assert(check(env, TypeSet::scalars_spec(), *operand) is Ok);
            lemma_bool(env, host, *operand, h, m);
            lemma_run_push(host, bool_code(env, *operand, h), Op::I32Eqz, m);
            match truth(env, host, *operand) {
                Some(b) => {
                    lemma_push_pop(m, bit(b), 0);
                },
                None => {},
            }
        },
        Expr::And { .. } | Expr::Or { .. } => {
            lemma_logic(env, host, e, h, m);
        },
        Expr::Cmp { .. } => {
            lemma_comparison(env, host, e, h, m);
        },
        Expr::FnCall { args, .. } => {
            lemma_call(env, host, e, h, m);
        },
    }
}

/// The state of an operand of `and` and `or`: 0 where it decides, 1
/// where it is defined and does not decide, 2 where it is undefined.
pub open spec fn state_of(t: Option<bool>, disjunction: bool) -> int {
    match t {
        Some(b) => bit(b != disjunction),
        None => UNDEFINED_STATE as int,
    }
}

/// The code of `and` and of `or` leaves their value, and raises where
/// they are undefined.
pub proof fn lemma_logic(env: Env, host: Host, e: Expr, h: nat, m: Machine)
    requires
        e is And || e is Or,
        type_of(env, e) is Ok,
    ensures
        yields(run(host, expr_code(env, e, h), m), m, eval(env, host, e), h),
    decreases e, 0nat, 0nat,
{
    let (lhs, rhs, disjunction) = match e {
        Expr::And { lhs, rhs, .. } => (*lhs, *rhs, false),
        Expr::Or { lhs, rhs, .. } => (*lhs, *rhs, true),
        _ => arbitrary(),
    };
    assert(check(env, TypeSet::scalars_spec(), lhs) is Ok);
    assert(check(env, TypeSet::scalars_spec(), rhs) is Ok);
    let undefined = UNDEFINED_STATE as int;
    let a = state_of(truth(env, host, lhs), disjunction);
    let b = state_of(truth(env, host, rhs), disjunction);
    let f0 = fresh(m);
    lemma_handled(env, host, lhs, disjunction, undefined, f0);
    lemma_handled(env, host, rhs, disjunction, undefined, f0.push(a));
    lemma_combined(
        host,
        handled_code(env, lhs, disjunction, undefined),
        handled_code(env, rhs, disjunction, undefined),
        a,
        b,
        bit(disjunction),
        h,
        m,
    );
}

/// The code that makes of a value what can be compared leaves the value
/// as it is.
pub proof fn lemma_operand_code(host: Host, ty: Result<Type, CompileError>, m: Machine)
    requires
        m.stack.len() >= 1,
    ensures
        run(host, operand_code(ty), m) == Outcome::Done(m),
{
    if ty == Ok::<Type, CompileError>(Type::Float) {
        lemma_run_one(host, Op::FloatFromBits, m);
    } else {
        lemma_run_empty(host, m);
    }
}

/// The code that compares two values leaves whether the comparison
/// holds of them.
pub proof fn lemma_compare_code(
    host: Host,
    ty: Result<Type, CompileError>,
    op: CmpOp,
    m: Machine,
    a: int,
    b: int,
)
    ensures
        run(host, compare_code(op, ty), m.push(a).push(b)) == Outcome::Done(
            m.push(bit(holds(host, ty, op, a, b))),
        ),
{
    let start = m.push(a).push(b);
    lemma_push_pop(m, a, b);
    if ty == Ok::<Type, CompileError>(Type::Float) {
        lemma_run_one(host, Op::FloatCmp(op), start);
    } else if ty == Ok::<Type, CompileError>(Type::String) {
        let same = host.texts[a] == host.texts[b];
        if op == CmpOp::Ne {
            lemma_run_two(host, Op::StrEq, Op::I32Eqz, start);
            lemma_push_pop(m, bit(same), 0);
        } else {
            lemma_run_one(host, Op::StrEq, start);
        }
    } else {
        lemma_run_one(host, Op::I64Cmp(op), start);
    }
}

/// The code of a comparison leaves whether it holds, and raises where an
/// operand is undefined.
pub proof fn lemma_comparison(env: Env, host: Host, e: Expr, h: nat, m: Machine)
    requires
        e is Cmp,
        type_of(env, e) is Ok,
    ensures
        yields(run(host, expr_code(env, e, h), m), m, eval(env, host, e), h),
    decreases e, 0nat, 0nat,
{
    match e {
        Expr::Cmp { op, lhs, rhs, .. } => {
            let ty = type_of(env, *lhs);
            assert(check(env, operand_types(op), *lhs) is Ok);
            assert(check(env, TypeSet::only_spec(ty.unwrap()), *rhs) is Ok);
            let a = expr_code(env, *lhs, h);
            let b = expr_code(env, *rhs, h);
            let o = operand_code(ty);
            let c = compare_code(op, ty);
            lemma_expr(env, host, *lhs, h, m);
            lemma_run_concat(host, a, o, m);
            lemma_run_concat(host, a + o, b, m);
            lemma_run_concat(host, a + o + b, o, m);
            lemma_run_concat(host, a + o + b + o, c, m);
            match eval(env, host, *lhs) {
                Some(x) => {
                    lemma_operand_code(host, ty, m.push(x));
                    lemma_expr(env, host, *rhs, h, m.push(x));
                    match eval(env, host, *rhs) {
                        Some(y) => {
                            lemma_operand_code(host, ty, m.push(x).push(y));
                            lemma_compare_code(host, ty, op, m, x, y);
                        },
                        None => {},
                    }
                },
                None => {},
            }
        },
        _ => {},
    }
}

/// The code of a call leaves the result of the call, and raises where an
/// argument or the result is undefined.
pub proof fn lemma_call(env: Env, host: Host, e: Expr, h: nat, m: Machine)
    requires
        e is FnCall,
        type_of(env, e) is Ok,
    ensures
        yields(run(host, expr_code(env, e, h), m), m, eval(env, host, e), h),
    decreases e, 0nat, e->args@.len() + 1,
{
    let args = e->args;
    let n = args@.len();
    let sig = signature_of(env, e).unwrap();
    let types = arg_types(env, e, n).unwrap();
    let sigs = resolve_spec(env.root, env.scope, *e->callee).unwrap()->Func_0;
    lemma_matching(sigs@, types);
    lemma_arg_count(env, host, e, n);
    let front = args_code(env, e, n, h);
    let call = Op::Call { func_id: sig.func_id as int, nargs: sig.args@.len() };
    lemma_args(env, host, e, n, h, m);
    lemma_run_concat(host, front, call_code(sig, h), m);
    match arg_values(env, host, e, n) {
        Some(values) => {
            let m1 = Machine { stack: m.stack + values, reported: m.reported };
            assert(m1.stack.skip(m1.stack.len() - n) =~= values);
            assert(m1.pop(n as int).stack =~= m.stack);
            assert(m1.pop(n as int) == m);
            lemma_run_two(host, call, Op::BrIf(h), m1);
            let key = (sig.func_id as int, values);
            let plain = seq![call, Op::BrIf(h)];
            if host.results.contains_key(key) {
                let v = host.results[key];
                lemma_push_pop(m, v, 0);
                assert(run(host, plain, m1) == Outcome::Done(m.push(v)));
                if sig.result == Type::Bool {
                    lemma_run_concat(host, plain, seq![Op::I32Eqz, Op::I32Eqz], m1);
                    lemma_run_two(host, Op::I32Eqz, Op::I32Eqz, m.push(v));
                    lemma_push_pop(m, bit(v == 0), 0);
                }
            } else {
                lemma_push_pop(m, 0, 1);
                assert(raised(run(host, plain, m1), h, m));
                if sig.result == Type::Bool {
                    lemma_run_concat(host, plain, seq![Op::I32Eqz, Op::I32Eqz], m1);
                }
            }
        },
        None => {},
    }
}

/// The code of the arguments of a call leaves their values, and raises
/// where one of them is undefined.
pub proof fn lemma_args(env: Env, host: Host, e: Expr, n: nat, h: nat, m: Machine)
    requires
        e is FnCall,
        n <= e->args@.len(),
        arg_types(env, e, e->args@.len()) is Ok,
    ensures
        match arg_values(env, host, e, n) {
            Some(values) => run(host, args_code(env, e, n, h), m) == Outcome::Done(
                Machine { stack: m.stack + values, reported: m.reported },
            ),
            None => raised(run(host, args_code(env, e, n, h), m), h, m),
        },
    decreases e, 0nat, n,
{
    if n == 0 {
        lemma_run_empty(host, m);
        assert(m.stack + Seq::<int>::empty() =~= m.stack);
    } else {
        let front = args_code(env, e, (n - 1) as nat, h);
        let last = expr_code(env, e->args@[n - 1], h);
        lemma_args(env, host, e, (n - 1) as nat, h, m);
        lemma_run_concat(host, front, last, m);
        lemma_args_typed(env, e, e->args@.len(), n - 1);
        match arg_values(env, host, e, (n - 1) as nat) {
            Some(values) => {
                let m1 = Machine { stack: m.stack + values, reported: m.reported };
                lemma_expr(env, host, e->args@[n - 1], h, m1);
                match eval(env, host, e->args@[n - 1]) {
                    Some(v) => {
                        assert(m1.push(v).stack =~= m.stack + values.push(v));
                    },
                    None => {},
                }
            },
            None => {},
        }
    }
}

/// The code of an expression as a boolean leaves 1 where the expression
/// counts as true and 0 where it does not, and raises where it is
/// undefined.
pub proof fn lemma_bool(env: Env, host: Host, e: Expr, h: nat, m: Machine)
    requires
        check(env, TypeSet::scalars_spec(), e) is Ok,
    ensures
        yields(
            run(host, bool_code(env, e, h), m),
            m,
            match truth(env, host, e) {
                Some(b) => Some(bit(b)),
                None => None,
            },
            h,
        ),
    decreases e, 2nat, 0nat,
{
    lemma_expr(env, host, e, h, m);
    let ty = type_of(env, e).unwrap();
    if !raises(env, e) {
        lemma_run_concat(host, expr_code(env, e, h), truth_code(ty), m);
        match eval(env, host, e) {
            Some(v) => {
                if ty == Type::Bool {
                    lemma_bool_valued(env, host, e);
                }
                lemma_truth_code(host, ty, m, v);
            },
            None => {},
        }
    }
}

/// The code of an expression in a handled region leaves 1 where the
/// expression counts as true and 0 where it does not, the other way round
/// where it is negated, and the fallback where the expression is
/// undefined.
pub proof fn lemma_handled(
    env: Env,
    host: Host,
    e: Expr,
    negate: bool,
    fallback: int,
    m: Machine,
)
    requires
        check(env, TypeSet::scalars_spec(), e) is Ok,
    ensures
        run(host, handled_code(env, e, negate, fallback), m) == Outcome::Done(
            m.push(
                match truth(env, host, e) {
                    Some(b) => bit(b != negate),
                    None => fallback,
                },
            ),
        ),
    decreases e, 3nat, 0nat,
{
    let f0 = fresh(m);
    lemma_bool(env, host, e, 0, f0);
    let plain = bool_code(env, e, 0);
    let t = truth(env, host, e);
    if negate {
        lemma_run_push(host, plain, Op::I32Eqz, f0);
        match t {
            Some(b) => {
                lemma_push_pop(f0, bit(b), 0);
            },
            None => {},
        }
    }
    lemma_try_except(
        host,
        if negate {
            plain.push(Op::I32Eqz)
        } else {
            plain
        },
        fallback,
        m,
        match t {
            Some(b) => Some(bit(b != negate)),
            None => None,
        },
    );
}

/// The code of a rule reports the rule if its condition is defined and
/// true, reports nothing if it is not, and leaves the stack as it was.
pub proof fn lemma_rule(env: Env, host: Host, condition: Expr, rule_id: RuleId, m: Machine)
    requires
        check(env, TypeSet::scalars_spec(), condition) is Ok,
    ensures
        run(host, rule_code(env, condition, rule_id), m) == Outcome::Done(
            Machine {
                stack: m.stack,
                reported: if rule_matches(env, host, condition) {
                    m.reported.push(rule_id as int)
                } else {
                    m.reported
                },
            },
        ),
{
    let m0 = fresh(m);
    let t = rule_matches(env, host, condition);
    let region = handled_code(env, condition, false, 0);
    let tail = seq![Op::I32Eqz, Op::BrIf(0), Op::I32Const(rule_id as int), Op::RuleMatch];
    let block = Op::Block { ty: None, body: region + tail };
    lemma_handled(env, host, condition, false, 0, m0);
    lemma_run_concat(host, region, tail, m0);
    lemma_run_one(host, block, m);
    let m1 = m0.push(bit(t));
    let m2 = m0.push(bit(!t));
    lemma_run_four(host, Op::I32Eqz, Op::BrIf(0), Op::I32Const(rule_id as int), Op::RuleMatch, m1);
    lemma_run_three(host, Op::I32Eqz, Op::BrIf(0), Op::I32Const(rule_id as int), m1);
    lemma_run_two(host, Op::I32Eqz, Op::BrIf(0), m1);
    lemma_push_pop(m0, bit(t), 0);
    lemma_push_pop(m0, bit(!t), 0);
    lemma_push_pop(m0, rule_id as int, 0);
    assert(step(host, Op::I32Eqz, m1) == Outcome::Done(m2));
    if t {
        assert(run(host, seq![Op::I32Eqz, Op::BrIf(0)], m1) == Outcome::Done(m0));
        let m3 = Machine { stack: Seq::<int>::empty(), reported: m.reported.push(rule_id as int) };
        assert(m0.push(rule_id as int).stack.take(0) =~= Seq::<int>::empty());
        assert(run(host, tail, m1) == Outcome::Done(m3));
        assert(m.stack + m3.stack =~= m.stack);
    } else {
        assert(run(host, seq![Op::I32Eqz, Op::BrIf(0)], m1) == Outcome::Branch(0, m0));
        assert(run(host, tail, m1) == Outcome::Branch(0, m0));
        assert(m.stack + m0.stack.skip(0) =~= m.stack);
    }
}

} // verus!
