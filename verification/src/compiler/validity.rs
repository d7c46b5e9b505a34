//! The generated code is valid: every branch in it leaves a block that
//! encloses it, and every call names a function that the host provides.
use vstd::prelude::*;
use crate::ast::{CmpOp, Expr, Import, Rule, Type};
use crate::compiler::emit::{
    args_code, bool_code, call_code, combined_code, compare_code, expr_code, handled_code,
    lemma_args_typed, operand_code,
    raises, rule_code, truth_code, try_except_code, FLOAT_MAGNITUDE, UNDEFINED_STATE,
};
use crate::compiler::errors::TypeSet;
use crate::compiler::semcheck::{
    arg_types, check, matching, operand_types, resolve_spec, signature_of, type_of,
};
use crate::compiler::session::{import_step, rule_env, rule_step, Session};
use crate::compiler::{Env, RuleId};
use crate::modules::{find_module, ModuleDef};
use crate::symbol_table::{FuncSignature, SymbolTable, TypeValue};
use crate::wasm::lower::{valid, valid_op, valid_upto};
use crate::wasm::{Op, ValType};

verus! {

/// Whether `v` names only functions with numbers below `n`, where
/// structures lie at most `depth` deep in it.
pub open spec fn value_ok(v: TypeValue, n: nat, depth: nat) -> bool
    decreases depth,
{
    match v {
        TypeValue::Func(sigs) => forall|i: int|
            0 <= i < sigs@.len() ==> (#[trigger] sigs@[i]).func_id < n,
        TypeValue::Struct(t) => depth > 0 && forall|name: Seq<char>|
            (#[trigger] t.get(name)).is_some() ==> value_ok(
                t.get(name).unwrap(),
                n,
                (depth - 1) as nat,
            ),
        _ => true,
    }
}

/// Whether every symbol of `t` names only functions below `n`.
pub open spec fn table_ok(t: SymbolTable, n: nat, depth: nat) -> bool {
    forall|name: Seq<char>| (#[trigger] t.get(name)).is_some() ==> value_ok(t.get(name).unwrap(), n, depth)
}

/// Whether every top-level symbol names only functions below `n`.
pub open spec fn symbols_ok(symbols: Map<Seq<char>, TypeValue>, n: nat, depth: nat) -> bool {
    forall|name: Seq<char>| #[trigger] symbols.contains_key(name) ==> value_ok(symbols[name], n, depth)
}

/// Whether every module names only functions below `n`.
pub open spec fn modules_ok(modules: Seq<ModuleDef>, n: nat, depth: nat) -> bool {
    forall|i: int| 0 <= i < modules.len() ==> table_ok(*(#[trigger] modules[i]).symbols, n, depth)
}

/// The table of a structure.
pub open spec fn table_of(v: TypeValue) -> SymbolTable {
    match v {
        TypeValue::Struct(t) => *t,
        _ => arbitrary(),
    }
}

/// What is fine at one depth is fine at the next.
pub proof fn lemma_deeper(v: TypeValue, n: nat, depth: nat)
    requires
        value_ok(v, n, depth),
    ensures
        value_ok(v, n, depth + 1),
    decreases depth,
{
    match v {
        TypeValue::Struct(t) => {
            assert forall|name: Seq<char>| (#[trigger] t.get(name)).is_some() implies value_ok(
                t.get(name).unwrap(),
                n,
                depth,
            ) by {
                lemma_deeper(t.get(name).unwrap(), n, (depth - 1) as nat);
            }
        },
        _ => {},
    }
}

/// What a name resolves to names only functions below `n`, where the
/// symbols do.
pub proof fn lemma_resolved(
    root: Map<Seq<char>, TypeValue>,
    scope: Option<SymbolTable>,
    e: Expr,
    n: nat,
    depth: nat,
)
    requires
        symbols_ok(root, n, depth),
        scope matches Some(t) ==> table_ok(t, n, depth),
        resolve_spec(root, scope, e) is Ok,
    ensures
        value_ok(resolve_spec(root, scope, e).unwrap(), n, depth),
    decreases e,
{
    match e {
        Expr::Ident { name, .. } => {
            match scope {
                Some(t) => {
                    assert(t.get(name@).is_some());
                },
                None => {
                    assert(root.contains_key(name@));
                },
            }
        },
        Expr::FieldAccess { lhs, rhs, .. } => {
            lemma_resolved(root, scope, *lhs, n, depth);
            let inner = table_of(resolve_spec(root, scope, *lhs).unwrap());
            assert forall|name: Seq<char>| (#[trigger] inner.get(name)).is_some() implies value_ok(
                inner.get(name).unwrap(),
                n,
                depth,
            ) by {
                lemma_deeper(inner.get(name).unwrap(), n, (depth - 1) as nat);
            }
            lemma_resolved(root, Some(inner), *rhs, n, depth);
        },
        _ => {},
    }
}

/// A signature that was found is one of those it was sought among.
pub proof fn lemma_matching_one(sigs: Seq<FuncSignature>, types: Seq<Type>)
    requires
        matching(sigs, types).is_some(),
    ensures
        exists|i: int| 0 <= i < sigs.len() && #[trigger] sigs[i] == matching(sigs, types).unwrap(),
    decreases sigs.len(),
{
    if sigs[0].args@ == types {
        assert(sigs[0] == matching(sigs, types).unwrap());
    } else {
        lemma_matching_one(sigs.skip(1), types);
        let i = choose|i: int|
            0 <= i < sigs.skip(1).len() && #[trigger] sigs.skip(1)[i] == matching(
                sigs.skip(1),
                types,
            ).unwrap();
        assert(sigs[i + 1] == sigs.skip(1)[i]);
    }
}

/// The first instructions of a sequence are valid if they are valid alone.
pub proof fn lemma_valid_prefix(a: Seq<Op>, b: Seq<Op>, k: nat, depth: nat, n: nat)
    requires
        k <= a.len(),
    ensures
        valid_upto(a + b, k, depth, n) == valid_upto(a, k, depth, n),
    decreases k,
{
    if k > 0 {
        lemma_valid_prefix(a, b, (k - 1) as nat, depth, n);
        assert((a + b)[k - 1] == a[k - 1]);
    }
}

/// A concatenation is valid up to a place in its second part if its
/// first part is valid and its second part is valid up to there.
pub proof fn lemma_valid_concat_upto(a: Seq<Op>, b: Seq<Op>, k: nat, depth: nat, n: nat)
    requires
        k <= b.len(),
    ensures
        valid_upto(a + b, a.len() + k, depth, n) == (valid(a, depth, n) && valid_upto(
            b,
            k,
            depth,
            n,
        )),
    decreases k,
{
    if k == 0 {
        lemma_valid_prefix(a, b, a.len(), depth, n);
    } else {
        lemma_valid_concat_upto(a, b, (k - 1) as nat, depth, n);
        assert((a + b)[a.len() + k - 1] == b[k - 1]);
    }
}

/// A concatenation is valid if both parts are.
pub proof fn lemma_valid_concat(a: Seq<Op>, b: Seq<Op>, depth: nat, n: nat)
    ensures
        valid(a + b, depth, n) == (valid(a, depth, n) && valid(b, depth, n)),
{
    lemma_valid_concat_upto(a, b, b.len(), depth, n);
}

/// A sequence with one more instruction is valid if the sequence and the
/// instruction are.
pub proof fn lemma_valid_push(a: Seq<Op>, op: Op, depth: nat, n: nat)
    ensures
        valid(a.push(op), depth, n) == (valid(a, depth, n) && valid_op(op, depth, n)),
        valid(seq![op], depth, n) == valid_op(op, depth, n),
{
    assert(a.push(op) =~= a + seq![op]);
    lemma_valid_concat(a, seq![op], depth, n);
    let one = seq![op];
    assert(one.len() == 1);
    assert(valid_upto(one, 0, depth, n));
    assert(one[0] == op);
}

/// A handled region is valid if its try code is valid two blocks deeper
/// and its except code one block deeper.
pub proof fn lemma_valid_region(
    ty: ValType,
    try_code: Seq<Op>,
    except_code: Seq<Op>,
    depth: nat,
    n: nat,
)
    requires
        valid(try_code, depth + 2, n),
        valid(except_code, depth + 1, n),
    ensures
        valid(try_except_code(ty, try_code, except_code), depth, n),
{
    let inner = Op::Block { ty: None, body: try_code.push(Op::Br(1)) };
    let body = seq![inner] + except_code;
    let outer = Op::Block { ty: Some(ty), body };
    lemma_valid_push(try_code, Op::Br(1), depth + 2, n);
    lemma_valid_push(Seq::empty(), inner, depth + 1, n);
    lemma_valid_concat(seq![inner], except_code, depth + 1, n);
    lemma_valid_push(Seq::empty(), outer, depth, n);
}

/// The code that makes a boolean of a value is valid.
pub proof fn lemma_valid_truth(ty: Type, depth: nat, n: nat)
    ensures
        valid(truth_code(ty), depth, n),
{
    let zero = Op::I64Const(0);
    let differ = Op::I64Cmp(CmpOp::Ne);
    match ty {
        Type::Integer => {
            assert(truth_code(ty) =~= seq![zero].push(differ));
            lemma_valid_push(Seq::empty(), zero, depth, n);
            lemma_valid_push(seq![zero], differ, depth, n);
        },
        Type::Float => {
            let mask = Op::I64Const(FLOAT_MAGNITUDE as int);
            assert(truth_code(ty) =~= seq![mask].push(Op::I64And).push(zero).push(differ));
            lemma_valid_push(Seq::empty(), mask, depth, n);
            lemma_valid_push(seq![mask], Op::I64And, depth, n);
            lemma_valid_push(seq![mask].push(Op::I64And), zero, depth, n);
            lemma_valid_push(seq![mask].push(Op::I64And).push(zero), differ, depth, n);
        },
        Type::String => {
            assert(truth_code(ty) =~= seq![Op::StrLen].push(zero).push(differ));
            lemma_valid_push(Seq::empty(), Op::StrLen, depth, n);
            lemma_valid_push(seq![Op::StrLen], zero, depth, n);
            lemma_valid_push(seq![Op::StrLen].push(zero), differ, depth, n);
        },
        _ => {},
    }
}

/// Whether the symbols that a rule is compiled against name only
/// functions below `n`.
pub open spec fn env_ok(env: Env, n: nat, depth: nat) -> bool {
    &&& symbols_ok(env.root, n, depth)
    &&& env.scope matches Some(t) ==> table_ok(t, n, depth)
}

/// The code of an expression is valid wherever its handler is in reach.
pub proof fn lemma_valid_expr(env: Env, e: Expr, h: nat, depth: nat, n: nat, d: nat)
    requires
        type_of(env, e) is Ok,
        h < depth,
        env_ok(env, n, d),
    ensures
        valid(expr_code(env, e, h), depth, n),
    decreases e, 1nat, 0nat,
{
    let code = expr_code(env, e, h);
    match e {
        Expr::True { .. } | Expr::False { .. } | Expr::LiteralInt { .. } | Expr::LiteralFlt {
            ..
        } | Expr::LiteralStr { .. } | Expr::Ident { .. } | Expr::FieldAccess { .. } => {
            assert(code.len() == 1);
            assert(code =~= seq![code[0]]);
            lemma_valid_push(Seq::empty(), code[0], depth, n);
        },
        Expr::PatternMatch { .. } => {
            assert(code =~= seq![code[0]].push(code[1]));
            lemma_valid_push(Seq::empty(), code[0], depth, n);
            lemma_valid_push(seq![code[0]], code[1], depth, n);
        },
        Expr::PatternOffset { .. } => {
            assert(code =~= seq![code[0]].push(code[1]).push(code[2]));
            lemma_valid_push(Seq::empty(), code[0], depth, n);
            lemma_valid_push(seq![code[0]], code[1], depth, n);
            lemma_valid_push(seq![code[0]].push(code[1]), code[2], depth, n);
        },
        Expr::Not { operand, .. } => {
            assert(check(env, TypeSet::scalars_spec(), *operand) is Ok);
            lemma_valid_bool(env, *operand, h, depth, n, d);
            lemma_valid_push(bool_code(env, *operand, h), Op::I32Eqz, depth, n);
        },
        Expr::And { lhs, rhs, .. } => {
            assert(check(env, TypeSet::scalars_spec(), *lhs) is Ok);
            assert(check(env, TypeSet::scalars_spec(), *rhs) is Ok);
            let undefined = UNDEFINED_STATE as int;
            lemma_valid_handled(env, *lhs, false, undefined, depth + 4, n, d);
            lemma_valid_handled(env, *rhs, false, undefined, depth + 4, n, d);
            lemma_valid_combined(
                handled_code(env, *lhs, false, undefined),
                handled_code(env, *rhs, false, undefined),
                0,
                h,
                depth,
                n,
            );
        },
        Expr::Or { lhs, rhs, .. } => {
            assert(check(env, TypeSet::scalars_spec(), *lhs) is Ok);
            assert(check(env, TypeSet::scalars_spec(), *rhs) is Ok);
            let undefined = UNDEFINED_STATE as int;
            lemma_valid_handled(env, *lhs, true, undefined, depth + 4, n, d);
            lemma_valid_handled(env, *rhs, true, undefined, depth + 4, n, d);
            lemma_valid_combined(
                handled_code(env, *lhs, true, undefined),
                handled_code(env, *rhs, true, undefined),
                1,
                h,
                depth,
                n,
            );
        },
        Expr::Cmp { op, lhs, rhs, .. } => {
            let ty = type_of(env, *lhs);
            assert(check(env, operand_types(op), *lhs) is Ok);
            assert(check(env, TypeSet::only_spec(ty.unwrap()), *rhs) is Ok);
            let a = expr_code(env, *lhs, h);
            let b = expr_code(env, *rhs, h);
            let o = operand_code(ty);
            let last = compare_code(op, ty);
            lemma_valid_expr(env, *lhs, h, depth, n, d);
            lemma_valid_expr(env, *rhs, h, depth, n, d);
            lemma_valid_push(Seq::empty(), Op::FloatFromBits, depth, n);
            assert(last =~= seq![last[0]] || last =~= seq![last[0]].push(Op::I32Eqz));
            lemma_valid_push(Seq::empty(), last[0], depth, n);
            lemma_valid_push(seq![last[0]], Op::I32Eqz, depth, n);
            lemma_valid_concat(a, o, depth, n);
            lemma_valid_concat(a + o, b, depth, n);
            lemma_valid_concat(a + o + b, o, depth, n);
            lemma_valid_concat(a + o + b + o, last, depth, n);
        },
        Expr::FnCall { callee, args, .. } => {
            let sig = signature_of(env, e).unwrap();
            let found = resolve_spec(env.root, env.scope, *callee).unwrap();
            let sigs = found->Func_0;
            lemma_resolved(env.root, env.scope, *callee, n, d);
            lemma_matching_one(sigs@, arg_types(env, e, args@.len()).unwrap());
            assert(sig.func_id < n);
            lemma_valid_args(env, e, args@.len(), h, depth, n, d);
            let call = Op::Call { func_id: sig.func_id as int, nargs: sig.args@.len() };
            let plain = seq![call].push(Op::BrIf(h));
            lemma_valid_push(Seq::empty(), call, depth, n);
            lemma_valid_push(seq![call], Op::BrIf(h), depth, n);
            assert(plain =~= seq![call, Op::BrIf(h)]);
            if sig.result == Type::Bool {
                let twice = seq![Op::I32Eqz].push(Op::I32Eqz);
                assert(twice =~= seq![Op::I32Eqz, Op::I32Eqz]);
                lemma_valid_push(Seq::empty(), Op::I32Eqz, depth, n);
                lemma_valid_push(seq![Op::I32Eqz], Op::I32Eqz, depth, n);
                lemma_valid_concat(plain, twice, depth, n);
            }
            lemma_valid_concat(args_code(env, e, args@.len(), h), call_code(sig, h), depth, n);
        },
    }
}

/// The code of an expression in a handled region is valid.
pub proof fn lemma_valid_handled(
    env: Env,
    e: Expr,
    negate: bool,
    fallback: int,
    depth: nat,
    n: nat,
    d: nat,
)
    requires
        type_of(env, e) is Ok,
        env_ok(env, n, d),
    ensures
        valid(handled_code(env, e, negate, fallback), depth, n),
    decreases e, 3nat, 0nat,
{
    let plain = bool_code(env, e, 0);
    lemma_valid_bool(env, e, 0, depth + 2, n, d);
    lemma_valid_push(plain, Op::I32Eqz, depth + 2, n);
    lemma_valid_push(Seq::empty(), Op::I32Const(fallback), depth + 1, n);
    lemma_valid_region(
        ValType::I32,
        if negate {
            plain.push(Op::I32Eqz)
        } else {
            plain
        },
        seq![Op::I32Const(fallback)],
        depth,
        n,
    );
}

/// The code of `and` and `or` is valid if the code of the states is valid
/// four blocks deeper and the handler is in reach.
pub proof fn lemma_valid_combined(
    first: Seq<Op>,
    second: Seq<Op>,
    decided: int,
    h: nat,
    depth: nat,
    n: nat,
)
    requires
        valid(first, depth + 4, n),
        valid(second, depth + 4, n),
        h < depth,
    ensures
        valid(combined_code(first, second, decided, h), depth, n),
{
    let choice = Op::BrTable { targets: seq![0nat, 2nat, 1nat], default: 1 };
    let states_body = (first + second).push(Op::I32Mul).push(choice);
    let states = Op::Block { ty: None, body: states_body };
    let undefined_body = seq![states, Op::I32Const(decided), Op::Br(2)];
    let undefined = Op::Block { ty: None, body: undefined_body };
    let other_body = seq![undefined, Op::Br(h + 2)];
    let other = Op::Block { ty: None, body: other_body };
    let outer_body = seq![other, Op::I32Const(1 - decided)];
    let outer = Op::Block { ty: Some(ValType::I32), body: outer_body };
    lemma_valid_concat(first, second, depth + 4, n);
    lemma_valid_push(first + second, Op::I32Mul, depth + 4, n);
    lemma_valid_push((first + second).push(Op::I32Mul), choice, depth + 4, n);
    assert(undefined_body =~= seq![states].push(Op::I32Const(decided)).push(Op::Br(2)));
    lemma_valid_push(Seq::empty(), states, depth + 3, n);
    lemma_valid_push(seq![states], Op::I32Const(decided), depth + 3, n);
    lemma_valid_push(seq![states].push(Op::I32Const(decided)), Op::Br(2), depth + 3, n);
    assert(other_body =~= seq![undefined].push(Op::Br(h + 2)));
    lemma_valid_push(Seq::empty(), undefined, depth + 2, n);
    lemma_valid_push(seq![undefined], Op::Br(h + 2), depth + 2, n);
    assert(outer_body =~= seq![other].push(Op::I32Const(1 - decided)));
    lemma_valid_push(Seq::empty(), other, depth + 1, n);
    lemma_valid_push(seq![other], Op::I32Const(1 - decided), depth + 1, n);
    lemma_valid_push(Seq::empty(), outer, depth, n);
}

/// The code of the arguments of a call is valid.
pub proof fn lemma_valid_args(env: Env, e: Expr, k: nat, h: nat, depth: nat, n: nat, d: nat)
    requires
        e is FnCall,
        k <= e->args@.len(),
        arg_types(env, e, e->args@.len()) is Ok,
        h < depth,
        env_ok(env, n, d),
    ensures
        valid(args_code(env, e, k, h), depth, n),
    decreases e, 0nat, k,
{
    if k > 0 {
        lemma_valid_args(env, e, (k - 1) as nat, h, depth, n, d);
        lemma_args_typed(env, e, e->args@.len(), k - 1);
        lemma_valid_expr(env, e->args@[k - 1], h, depth, n, d);
        lemma_valid_concat(
            args_code(env, e, (k - 1) as nat, h),
            expr_code(env, e->args@[k - 1], h),
            depth,
            n,
        );
    }
}

/// The code of an expression as a boolean is valid.
pub proof fn lemma_valid_bool(env: Env, e: Expr, h: nat, depth: nat, n: nat, d: nat)
    requires
        type_of(env, e) is Ok,
        h < depth,
        env_ok(env, n, d),
    ensures
        valid(bool_code(env, e, h), depth, n),
    decreases e, 2nat, 0nat,
{
    lemma_valid_expr(env, e, h, depth, n, d);
    if !raises(env, e) {
        let ty = type_of(env, e).unwrap();
        lemma_valid_truth(ty, depth, n);
        lemma_valid_concat(expr_code(env, e, h), truth_code(ty), depth, n);
    }
}

/// The code of a rule is valid as it stands, in no block.
pub proof fn lemma_valid_rule(env: Env, condition: Expr, rule_id: RuleId, n: nat, d: nat)
    requires
        type_of(env, condition) is Ok,
        env_ok(env, n, d),
    ensures
        valid(rule_code(env, condition, rule_id), 0, n),
{
    let region = handled_code(env, condition, false, 0);
    let tail = seq![Op::I32Eqz, Op::BrIf(0), Op::I32Const(rule_id as int), Op::RuleMatch];
    let block = Op::Block { ty: None, body: region + tail };
    lemma_valid_handled(env, condition, false, 0, 1, n, d);
    assert(tail =~= seq![Op::I32Eqz].push(Op::BrIf(0)).push(Op::I32Const(rule_id as int)).push(
        Op::RuleMatch,
    ));
    lemma_valid_push(Seq::empty(), Op::I32Eqz, 1, n);
    lemma_valid_push(seq![Op::I32Eqz], Op::BrIf(0), 1, n);
    lemma_valid_push(seq![Op::I32Eqz].push(Op::BrIf(0)), Op::I32Const(rule_id as int), 1, n);
    lemma_valid_push(
        seq![Op::I32Eqz].push(Op::BrIf(0)).push(Op::I32Const(rule_id as int)),
        Op::RuleMatch,
        1,
        n,
    );
    lemma_valid_concat(region, tail, 1, n);
    lemma_valid_push(Seq::empty(), block, 0, n);
}

/// A module that was found is one of the modules.
pub proof fn lemma_found_module(modules: Seq<ModuleDef>, name: Seq<char>)
    requires
        find_module(modules, name).is_some(),
    ensures
        exists|i: int| 0 <= i < modules.len() && #[trigger] modules[i] == find_module(
            modules,
            name,
        ).unwrap(),
    decreases modules.len(),
{
    if modules[0].name@ == name {
        assert(modules[0] == find_module(modules, name).unwrap());
    } else {
        lemma_found_module(modules.skip(1), name);
        let i = choose|i: int|
            0 <= i < modules.skip(1).len() && #[trigger] modules.skip(1)[i] == find_module(
                modules.skip(1),
                name,
            ).unwrap();
        assert(modules[i + 1] == modules.skip(1)[i]);
    }
}

/// Whether the code of the session is valid and will stay so: the
/// modules and the symbols name only functions below `n`.
pub open spec fn session_valid(s: Session, n: nat) -> bool {
    &&& modules_ok(s.modules, n, 0)
    &&& symbols_ok(s.symbols, n, 1)
    &&& valid(s.code, 0, n)
}

/// An import keeps the session valid.
pub proof fn lemma_import_valid(s: Session, imports: Seq<Import>, i: int, n: nat)
    requires
        session_valid(s, n),
        0 <= i < imports.len(),
        import_step(s, imports, i) is Ok,
    ensures
        session_valid(import_step(s, imports, i).unwrap(), n),
{
    let after = import_step(s, imports, i).unwrap();
    let name = imports[i].module_name@;
    lemma_found_module(s.modules, name);
    let m = find_module(s.modules, name).unwrap();
    assert(table_ok(*m.symbols, n, 0));
    assert(value_ok(TypeValue::Struct(m.symbols), n, 1));
    assert forall|other: Seq<char>| #[trigger] after.symbols.contains_key(other) implies value_ok(
        after.symbols[other],
        n,
        1,
    ) by {
        if other != name {
            assert(s.symbols.contains_key(other));
        }
    }
}

/// A rule keeps the session valid.
pub proof fn lemma_rule_valid(s: Session, rule: Rule, n: nat)
    requires
        session_valid(s, n),
        rule_step(s, rule) is Ok,
    ensures
        session_valid(rule_step(s, rule).unwrap(), n),
{
    let env = rule_env(s, rule);
    lemma_valid_rule(env, rule.condition, s.rules.len() as i32, n, 1);
    lemma_valid_concat(s.code, rule_code(env, rule.condition, s.rules.len() as i32), 0, n);
}

} // verus!
