//! What conditions mean and what the generated code does, and the proof
//! that the two agree.
//!
//! A value is a number: a boolean is 1 or 0, a floating-point number is
//! its bits, a string is a handle that the host gave it. An expression
//! has a value or is undefined. The logic has three values: `and` is
//! false where an operand is false and `or` is true where an operand is
//! true, whatever the other operand is; everywhere else an operand that
//! is undefined makes the whole expression undefined. A condition that is
//! undefined does not match.
use vstd::prelude::*;
use crate::ast::{CmpOp, Expr, Type};
use crate::compiler::emit::{bit, FLOAT_MAGNITUDE};
use crate::compiler::errors::CompileError;
use crate::compiler::semcheck::{resolve_spec, signature_of, type_of};
use crate::compiler::{find_pattern, Env};
use crate::symbol_table::TypeValue;
use crate::wasm::{Op, ValType};

verus! {

/// What the host answers while a set of rules runs.
pub ghost struct Host {
    /// The patterns that matched.
    pub matched: Set<int>,
    /// The offset of the first match of each pattern that matched.
    pub offsets: Map<int, int>,
    /// The results of the calls of functions, by function and arguments.
    /// A call that is not here has an undefined result.
    pub results: Map<(int, Seq<int>), int>,
    /// The handle of each string.
    pub handles: Map<Seq<u8>, int>,
    /// The string behind each handle.
    pub texts: Map<int, Seq<u8>>,
}

/// The state of the machine: the values on the stack, and the rules that
/// were reported to match, in the order of the reports.
pub ghost struct Machine {
    pub stack: Seq<int>,
    pub reported: Seq<int>,
}

impl Machine {
    /// The machine with `v` pushed.
    pub open spec fn push(self, v: int) -> Machine {
        Machine { stack: self.stack.push(v), reported: self.reported }
    }

    /// The machine with the topmost `n` values removed.
    pub open spec fn pop(self, n: int) -> Machine {
        Machine { stack: self.stack.take(self.stack.len() - n), reported: self.reported }
    }

    /// The value that is `i` places below the top of the stack.
    pub open spec fn top(self, i: int) -> int {
        self.stack[self.stack.len() - 1 - i]
    }
}

/// How a run of code ends: at its end, in a branch that leaves so many
/// blocks more than the code itself has, or in a fault.
pub ghost enum Outcome {
    Done(Machine),
    Branch(nat, Machine),
    Stuck,
}

/// Whether the comparison holds.
pub open spec fn compare(op: CmpOp, a: int, b: int) -> bool {
    match op {
        CmpOp::Eq => a == b,
        CmpOp::Ne => a != b,
        CmpOp::Lt => a < b,
        CmpOp::Gt => a > b,
        CmpOp::Le => a <= b,
        CmpOp::Ge => a >= b,
    }
}

/// The 64 bits that the number `x` stands for, as an unsigned number.
pub open spec fn bits_of(x: int) -> int {
    if x < 0 {
        x + 0x1_0000_0000_0000_0000
    } else {
        x
    }
}

/// Whether the bits encode no number: all bits of the exponent are set
/// and the fraction is not zero.
pub open spec fn is_nan(x: int) -> bool {
    bits_of(x) % 0x8000_0000_0000_0000 > 0x7ff0_0000_0000_0000
}

/// A number whose order among the numbers is the order of the
/// floating-point number that the bits encode: the bits without the sign,
/// negated where the sign is set. The two zeros have the same place.
pub open spec fn float_order(x: int) -> int {
    if bits_of(x) >= 0x8000_0000_0000_0000 {
        0x8000_0000_0000_0000 - bits_of(x)
    } else {
        bits_of(x)
    }
}

/// Whether the comparison holds of the floating-point numbers that the
/// bits encode. What is no number differs from everything and is in no
/// other relation to anything.
pub open spec fn float_compare(op: CmpOp, a: int, b: int) -> bool {
    if is_nan(a) || is_nan(b) {
        op == CmpOp::Ne
    } else {
        compare(op, float_order(a), float_order(b))
    }
}

/// Whether the comparison holds of two values of the type `ty`: integers
/// are compared as signed numbers, floating-point numbers as such, and
/// strings are equal if they are the same byte for byte.
pub open spec fn holds(host: Host, ty: Result<Type, CompileError>, op: CmpOp, a: int, b: int) -> bool {
    if ty == Ok::<Type, CompileError>(Type::String) {
        (host.texts[a] == host.texts[b]) == (op != CmpOp::Ne)
    } else if ty == Ok::<Type, CompileError>(Type::Float) {
        float_compare(op, a, b)
    } else {
        compare(op, a, b)
    }
}

/// The 32-bit value that stands for `x`: the value that differs from `x`
/// by a multiple of 2 to the power of 32.
pub open spec fn wrap32(x: int) -> int {
    (x + 0x8000_0000) % 0x1_0000_0000 - 0x8000_0000
}

/// The bitwise conjunction of two 64-bit values.
pub open spec fn and64(a: int, b: int) -> int {
    ((a as i64) & (b as i64)) as int
}

/// The number of values that a block of type `ty` leaves.
pub open spec fn arity(ty: Option<ValType>) -> int {
    if ty.is_some() {
        1
    } else {
        0
    }
}

/// How a block ends whose body, run on an empty stack, ended in `inner`:
/// the block leaves the topmost values of its body, as many as its type
/// asks for, and a branch of depth 0 ends the block as its end does.
pub open spec fn leave_block(ty: Option<ValType>, outer: Machine, inner: Outcome) -> Outcome {
    match inner {
        Outcome::Done(m) => if m.stack.len() == arity(ty) {
            Outcome::Done(Machine { stack: outer.stack + m.stack, reported: m.reported })
        } else {
            Outcome::Stuck
        },
        Outcome::Branch(depth, m) => if depth > 0 {
            Outcome::Branch((depth - 1) as nat, m)
        } else if m.stack.len() >= arity(ty) {
            Outcome::Done(
                Machine {
                    stack: outer.stack + m.stack.skip(m.stack.len() - arity(ty)),
                    reported: m.reported,
                },
            )
        } else {
            Outcome::Stuck
        },
        Outcome::Stuck => Outcome::Stuck,
    }
}

/// What one instruction does.
pub open spec fn step(host: Host, op: Op, m: Machine) -> Outcome
    decreases op, 0nat,
{
    let n = m.stack.len() as int;
    match op {
        Op::I32Const(v) => Outcome::Done(m.push(v)),
        Op::I64Const(v) => Outcome::Done(m.push(v)),
        Op::StrConst(s) => Outcome::Done(m.push(host.handles[s])),
        Op::I32Eqz => if n >= 1 {
            Outcome::Done(m.pop(1).push(bit(m.top(0) == 0)))
        } else {
            Outcome::Stuck
        },
        Op::I32Mul => if n >= 2 {
            Outcome::Done(m.pop(2).push(wrap32(m.top(1) * m.top(0))))
        } else {
            Outcome::Stuck
        },
        Op::I64And => if n >= 2 {
            Outcome::Done(m.pop(2).push(and64(m.top(1), m.top(0))))
        } else {
            Outcome::Stuck
        },
        Op::I64Cmp(rel) => if n >= 2 {
            Outcome::Done(m.pop(2).push(bit(compare(rel, m.top(1), m.top(0)))))
        } else {
            Outcome::Stuck
        },
        Op::FloatFromBits => if n >= 1 {
            Outcome::Done(m)
        } else {
            Outcome::Stuck
        },
        Op::FloatCmp(rel) => if n >= 2 {
            Outcome::Done(m.pop(2).push(bit(float_compare(rel, m.top(1), m.top(0)))))
        } else {
            Outcome::Stuck
        },
        Op::StrLen => if n >= 1 {
            Outcome::Done(m.pop(1).push(host.texts[m.top(0)].len() as int))
        } else {
            Outcome::Stuck
        },
        Op::StrEq => if n >= 2 {
            Outcome::Done(m.pop(2).push(bit(host.texts[m.top(1)] == host.texts[m.top(0)])))
        } else {
            Outcome::Stuck
        },
        Op::PatMatch => if n >= 1 {
            Outcome::Done(m.pop(1).push(bit(host.matched.contains(m.top(0)))))
        } else {
            Outcome::Stuck
        },
        Op::PatOffset => if n >= 1 {
            if host.offsets.contains_key(m.top(0)) {
                Outcome::Done(m.pop(1).push(host.offsets[m.top(0)]).push(0))
            } else {
                Outcome::Done(m.pop(1).push(0).push(1))
            }
        } else {
            Outcome::Stuck
        },
        Op::Call { func_id, nargs } => if n >= nargs {
            let args = m.stack.skip(n - nargs);
            if host.results.contains_key((func_id, args)) {
                Outcome::Done(m.pop(nargs as int).push(host.results[(func_id, args)]).push(0))
            } else {
                Outcome::Done(m.pop(nargs as int).push(0).push(1))
            }
        } else {
            Outcome::Stuck
        },
        Op::RuleMatch => if n >= 1 {
            Outcome::Done(
                Machine { stack: m.stack.take(n - 1), reported: m.reported.push(m.top(0)) },
            )
        } else {
            Outcome::Stuck
        },
        Op::Block { ty, body } => leave_block(
            ty,
            m,
            run_upto(host, body, body.len(), Machine { stack: Seq::empty(), reported: m.reported }),
        ),
        Op::IfElse { ty, consequent, alternative } => if n >= 1 {
            let inner = Machine { stack: Seq::empty(), reported: m.reported };
            if m.top(0) != 0 {
                leave_block(ty, m.pop(1), run_upto(host, consequent, consequent.len(), inner))
            } else {
                leave_block(ty, m.pop(1), run_upto(host, alternative, alternative.len(), inner))
            }
        } else {
            Outcome::Stuck
        },
        Op::Br(depth) => Outcome::Branch(depth, m),
        Op::BrIf(depth) => if n >= 1 {
            if m.top(0) != 0 {
                Outcome::Branch(depth, m.pop(1))
            } else {
                Outcome::Done(m.pop(1))
            }
        } else {
            Outcome::Stuck
        },
        Op::BrTable { targets, default } => if n >= 1 {
            if 0 <= m.top(0) < targets.len() {
                Outcome::Branch(targets[m.top(0)], m.pop(1))
            } else {
                Outcome::Branch(default, m.pop(1))
            }
        } else {
            Outcome::Stuck
        },
    }
}

/// What the first `n` instructions of `code` do.
pub open spec fn run_upto(host: Host, code: Seq<Op>, n: nat, m: Machine) -> Outcome
    decreases code, n,
{
    if n == 0 || n > code.len() {
        Outcome::Done(m)
    } else {
        match run_upto(host, code, (n - 1) as nat, m) {
            Outcome::Done(m1) => step(host, code[n - 1], m1),
            other => other,
        }
    }
}

/// What `code` does.
pub open spec fn run(host: Host, code: Seq<Op>, m: Machine) -> Outcome {
    run_upto(host, code, code.len(), m)
}

/// The value of a symbol, where it is known.
pub open spec fn symbol_value(host: Host, v: TypeValue) -> Option<int> {
    match v {
        TypeValue::Bool(Some(b)) => Some(bit(b)),
        TypeValue::Integer(Some(i)) => Some(i as int),
        TypeValue::Float(Some(bits)) => Some((bits as i64) as int),
        TypeValue::String(Some(s)) => Some(host.handles[s@]),
        _ => None,
    }
}

/// Whether a value of type `ty` counts as true: a number that is not
/// zero, a string that is not empty.
pub open spec fn truthy(host: Host, ty: Type, v: int) -> bool {
    match ty {
        Type::Float => and64(v, FLOAT_MAGNITUDE as int) != 0,
        Type::String => host.texts[v].len() != 0,
        _ => v != 0,
    }
}

/// The value of `and`: false where an operand is false, whatever the
/// other is; else undefined where an operand is undefined; else true.
pub open spec fn conjunction(a: Option<bool>, b: Option<bool>) -> Option<int> {
    if a == Some(false) || b == Some(false) {
        Some(0)
    } else if a.is_none() || b.is_none() {
        None
    } else {
        Some(1)
    }
}

/// The value of `or`: true where an operand is true, whatever the other
/// is; else undefined where an operand is undefined; else false.
pub open spec fn disjunction(a: Option<bool>, b: Option<bool>) -> Option<int> {
    if a == Some(true) || b == Some(true) {
        Some(1)
    } else if a.is_none() || b.is_none() {
        None
    } else {
        Some(0)
    }
}

/// The value of `e`, or `None` where it is undefined.
pub open spec fn eval(env: Env, host: Host, e: Expr) -> Option<int>
    decreases e, 1nat, 0nat,
{
    match e {
        Expr::True { .. } => Some(1),
        Expr::False { .. } => Some(0),
        Expr::LiteralInt { value, .. } => Some(value as int),
        Expr::LiteralFlt { bits, .. } => Some((bits as i64) as int),
        Expr::LiteralStr { value, .. } => Some(host.handles[value@]),
        Expr::Ident { .. } | Expr::FieldAccess { .. } => match resolve_spec(env.root, env.scope, e) {
            Ok(v) => symbol_value(host, v),
            Err(_) => None,
        },
        Expr::PatternMatch { ident, .. } => match find_pattern(env.pool, env.patterns, ident@) {
            Some(id) => Some(bit(host.matched.contains(id as int))),
            None => None,
        },
        Expr::PatternOffset { ident, .. } => match find_pattern(env.pool, env.patterns, ident@) {
            Some(id) => if host.offsets.contains_key(id as int) {
                Some(host.offsets[id as int])
            } else {
                None
            },
            None => None,
        },
        Expr::Not { operand, .. } => match truth(env, host, *operand) {
            Some(b) => Some(bit(!b)),
            None => None,
        },
        Expr::And { lhs, rhs, .. } => conjunction(truth(env, host, *lhs), truth(env, host, *rhs)),
        Expr::Or { lhs, rhs, .. } => disjunction(truth(env, host, *lhs), truth(env, host, *rhs)),
        Expr::Cmp { op, lhs, rhs, .. } => match (eval(env, host, *lhs), eval(env, host, *rhs)) {
            (Some(a), Some(b)) => Some(bit(holds(host, type_of(env, *lhs), op, a, b))),
            _ => None,
        },
        Expr::FnCall { args, .. } => match (
            signature_of(env, e),
            arg_values(env, host, e, args@.len()),
        ) {
            (Ok(sig), Some(values)) => if host.results.contains_key((sig.func_id as int, values)) {
                let v = host.results[(sig.func_id as int, values)];
                if sig.result == Type::Bool {
                    Some(bit(v != 0))
                } else {
                    Some(v)
                }
            } else {
                None
            },
            _ => None,
        },
    }
}

/// The values of the first `n` arguments of the call `e`, or `None`
/// where one of them is undefined.
pub open spec fn arg_values(env: Env, host: Host, e: Expr, n: nat) -> Option<Seq<int>>
    decreases e, 0nat, n,
{
    match e {
        Expr::FnCall { args, .. } => if n == 0 || n > args@.len() {
            Some(Seq::empty())
        } else {
            match (arg_values(env, host, e, (n - 1) as nat), eval(env, host, args@[n - 1])) {
                (Some(values), Some(v)) => Some(values.push(v)),
                _ => None,
            }
        },
        _ => Some(Seq::empty()),
    }
}

/// Whether `e` counts as true, or `None` where it is undefined.
pub open spec fn truth(env: Env, host: Host, e: Expr) -> Option<bool>
    decreases e, 2nat, 0nat,
{
    match (eval(env, host, e), type_of(env, e)) {
        (Some(v), Ok(ty)) => Some(truthy(host, ty, v)),
        _ => None,
    }
}

/// Whether a rule with the condition `e` matches: its condition is
/// defined and true.
pub open spec fn rule_matches(env: Env, host: Host, e: Expr) -> bool {
    truth(env, host, e) == Some(true)
}

/// What `code` does after a run that ended in `o`: it runs if that run
/// came to its end, and not at all if it did not.
pub open spec fn then_run(host: Host, o: Outcome, code: Seq<Op>) -> Outcome {
    match o {
        Outcome::Done(m) => run(host, code, m),
        other => other,
    }
}

/// The first instructions of a sequence do what they do alone.
pub proof fn lemma_run_prefix(host: Host, a: Seq<Op>, b: Seq<Op>, n: nat, m: Machine)
    requires
        n <= a.len(),
    ensures
        run_upto(host, a + b, n, m) == run_upto(host, a, n, m),
    decreases n,
{
    if n > 0 {
        lemma_run_prefix(host, a, b, (n - 1) as nat, m);
        assert((a + b)[n - 1] == a[n - 1]);
    }
}

/// A concatenation runs its first part and then, if that came to its end,
/// its second part.
pub proof fn lemma_run_concat_upto(host: Host, a: Seq<Op>, b: Seq<Op>, k: nat, m: Machine)
    requires
        k <= b.len(),
    ensures
        run_upto(host, a + b, a.len() + k, m) == match run(host, a, m) {
            Outcome::Done(m1) => run_upto(host, b, k, m1),
            other => other,
        },
    decreases k,
{
    if k == 0 {
        lemma_run_prefix(host, a, b, a.len(), m);
    } else {
        lemma_run_concat_upto(host, a, b, (k - 1) as nat, m);
        assert((a + b)[a.len() + k - 1] == b[k - 1]);
    }
}

/// A concatenation runs its first part and then, if that came to its end,
/// its second part.
pub proof fn lemma_run_concat(host: Host, a: Seq<Op>, b: Seq<Op>, m: Machine)
    ensures
        run(host, a + b, m) == then_run(host, run(host, a, m), b),
{
    lemma_run_concat_upto(host, a, b, b.len(), m);
}

/// A single instruction runs as its step.
pub proof fn lemma_run_one(host: Host, op: Op, m: Machine)
    ensures
        run(host, seq![op], m) == step(host, op, m),
{
    let code = seq![op];
    assert(code.len() == 1);
    assert(run_upto(host, code, 0, m) == Outcome::Done(m));
    assert(code[0] == op);
}

/// A sequence with one more instruction runs the sequence and then, if
/// that came to its end, the instruction.
pub proof fn lemma_run_push(host: Host, a: Seq<Op>, op: Op, m: Machine)
    ensures
        run(host, a.push(op), m) == match run(host, a, m) {
            Outcome::Done(m1) => step(host, op, m1),
            other => other,
        },
{
    assert(a.push(op) =~= a + seq![op]);
    lemma_run_concat(host, a, seq![op], m);
    match run(host, a, m) {
        Outcome::Done(m1) => {
            lemma_run_one(host, op, m1);
        },
        _ => {},
    }
}

/// No code does nothing.
pub proof fn lemma_run_empty(host: Host, m: Machine)
    ensures
        run(host, Seq::<Op>::empty(), m) == Outcome::Done(m),
{
}

} // verus!
