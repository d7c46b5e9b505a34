//! What holds of every compilation.
use vstd::prelude::*;
use crate::ast::{Expr, PatternDecl, Rule, Span, Type};
use crate::compiler::correctness::lemma_rule;
use crate::compiler::emit::rule_code;

use crate::compiler::semantics::{
    eval, lemma_run_concat, rule_matches, run, truth, Host, Machine, Outcome,
};
use crate::compiler::semcheck::type_of;
use crate::compiler::session::{declared, pattern_pairs, rule_env, rule_step, Session, MAX_COUNT};
use crate::compiler::Env;
use crate::warnings::Warning;

verus! {

/// The laws of `and` with an operand that is undefined, whichever side it
/// stands on: with an operand that is false the conjunction is false;
/// with any other operand it is undefined, and a rule with the conjunction
/// as its condition does not match.
pub proof fn lemma_and_undefined(env: Env, host: Host, undefined: Expr, other: Expr, span: Span)
    requires
        truth(env, host, undefined).is_none(),
    ensures
        ({
            let left = Expr::And { lhs: Box::new(undefined), rhs: Box::new(other), span };
            let right = Expr::And { lhs: Box::new(other), rhs: Box::new(undefined), span };
            &&& truth(env, host, other) == Some(false) ==> eval(env, host, left) == Some(0int)
                && eval(env, host, right) == Some(0int)
            &&& truth(env, host, other) != Some(false) ==> eval(env, host, left).is_none() && eval(
                env,
                host,
                right,
            ).is_none()
            &&& !rule_matches(env, host, left)
            &&& !rule_matches(env, host, right)
        }),
{
}

/// The laws of `or` with an operand that is undefined, whichever side it
/// stands on: with an operand that is true the disjunction is true; with
/// any other operand it is undefined, and a rule with the disjunction as
/// its condition does not match.
pub proof fn lemma_or_undefined(env: Env, host: Host, undefined: Expr, other: Expr, span: Span)
    requires
        truth(env, host, undefined).is_none(),
    ensures
        ({
            let left = Expr::Or { lhs: Box::new(undefined), rhs: Box::new(other), span };
            let right = Expr::Or { lhs: Box::new(other), rhs: Box::new(undefined), span };
            &&& truth(env, host, other) == Some(true) ==> eval(env, host, left) == Some(1int)
                && eval(env, host, right) == Some(1int)
            &&& truth(env, host, other) != Some(true) ==> eval(env, host, left).is_none() && eval(
                env,
                host,
                right,
            ).is_none() && !rule_matches(env, host, left) && !rule_matches(env, host, right)
        }),
{
}

/// A condition that is undefined does not match, and neither does its
/// negation.
pub proof fn lemma_undefined_does_not_match(env: Env, host: Host, undefined: Expr, span: Span)
    requires
        truth(env, host, undefined).is_none(),
    ensures
        !rule_matches(env, host, undefined),
        !rule_matches(env, host, Expr::Not { operand: Box::new(undefined), span }),
{
}

/// The numbers of the patterns of a rule count on from the number of
/// patterns that there were: they are dense, and none is used twice.
pub proof fn lemma_pattern_numbers(pool: Seq<Seq<char>>, first: nat, decls: Seq<PatternDecl>, n: nat)
    requires
        n <= decls.len(),
        first + n <= MAX_COUNT,
    ensures
        pattern_pairs(pool, first, decls, n).len() == n,
        forall|k: int|
            0 <= k < n ==> (#[trigger] pattern_pairs(pool, first, decls, n)[k]).1 == first + k,
    decreases n,
{
    if n > 0 {
        lemma_pattern_numbers(pool, first, decls, (n - 1) as nat);
    }
}

/// Rules and patterns are numbered densely: a rule that is compiled gets
/// the next number of a rule, which is its place among the rules, and its
/// patterns get the next numbers of patterns, in the order of their
/// declaration. The rules and the numbers before it stay.
pub proof fn lemma_dense_numbers(s: Session, rule: Rule)
    requires
        rule_step(s, rule) is Ok,
    ensures
        ({
            let after = rule_step(s, rule).unwrap();
            let new = after.rules[s.rules.len() as int];
            &&& after.rules.len() == s.rules.len() + 1
            &&& after.rules.take(s.rules.len() as int) == s.rules
            &&& after.patterns == s.patterns + declared(rule).len()
            &&& new.patterns.len() == declared(rule).len()
            &&& forall|k: int|
                0 <= k < new.patterns.len() ==> (#[trigger] new.patterns[k]).1 == s.patterns + k
        }),
{
    let after = rule_step(s, rule).unwrap();
    let decls = declared(rule);
    lemma_pattern_numbers(s.pool, s.patterns, decls, decls.len());
    assert(after.rules.take(s.rules.len() as int) =~= s.rules);
}

/// The entry function runs the code of the rules one after the other: with
/// one rule more it does what it did before, and then reports the new
/// rule if its condition is defined and true. The stack is left as it
/// was.
pub proof fn lemma_entry_function(s: Session, rule: Rule, host: Host, m: Machine)
    requires
        rule_step(s, rule) is Ok,
        run(host, s.code, m) is Done,
    ensures
        ({
            let before = run(host, s.code, m)->Done_0;
            run(host, rule_step(s, rule).unwrap().code, m) == Outcome::Done(
                Machine {
                    stack: before.stack,
                    reported: if rule_matches(rule_env(s, rule), host, rule.condition) {
                        before.reported.push(s.rules.len() as int)
                    } else {
                        before.reported
                    },
                },
            )
        }),
{
    let env = rule_env(s, rule);
    let id = s.rules.len() as i32;
    let code = rule_code(env, rule.condition, id);
    lemma_run_concat(host, s.code, code, m);
    lemma_rule(env, host, rule.condition, id, run(host, s.code, m)->Done_0);
}

/// A rule whose condition has a type other than boolean is compiled, and
/// exactly one warning is given for it; a boolean condition gives none.
pub proof fn lemma_one_warning(s: Session, rule: Rule)
    requires
        rule_step(s, rule) is Ok,
    ensures
        ({
            let after = rule_step(s, rule).unwrap();
            let ty = type_of(rule_env(s, rule), rule.condition).unwrap();
            &&& type_of(rule_env(s, rule), rule.condition) is Ok
            &&& ty == Type::Bool ==> after.warnings == s.warnings
            &&& ty != Type::Bool ==> after.warnings == s.warnings.push(
                Warning::NonBooleanAsBoolean { ty, span: rule.condition.span_spec() },
            )
        }),
{
}

} // verus!
