//! What a compiler holds and how each part of a source text changes it,
//! as mathematical values.
use vstd::prelude::*;
use crate::ast::{Ast, Import, Namespace, PatternDecl, Rule, Type};
use crate::compiler::emit::rule_code;
use crate::compiler::errors::{CompileError, Error, TypeSet};
use crate::compiler::semcheck::check;
use crate::compiler::{Env, PatternId, RuleView};
use crate::ident_pool::{handle_of, interned_with, IdentId};
use crate::modules::{find_module, ModuleDef};
use crate::symbol_table::TypeValue;
use crate::warnings::Warning;
use crate::wasm::Op;

verus! {

/// The largest number of rules, and of patterns, that a compiler takes.
pub const MAX_COUNT: usize = 0x7fff_ffff;

/// What a compiler holds.
pub ghost struct Session {
    /// The modules that can be imported.
    pub modules: Seq<ModuleDef>,
    /// The top-level symbols.
    pub symbols: Map<Seq<char>, TypeValue>,
    /// The identifier pool.
    pub pool: Seq<Seq<char>>,
    /// The rules. The number of a rule is its place here.
    pub rules: Seq<RuleView>,
    /// The number of patterns. The number of a pattern is its place among
    /// all the patterns, in the order of their declaration.
    pub patterns: nat,
    /// The warnings given so far.
    pub warnings: Seq<Warning>,
    /// The code of the entry function: the code of the rules, one after
    /// the other.
    pub code: Seq<Op>,
}

/// Whether an earlier one of `imports` imports the module that the
/// import at `i` imports.
pub open spec fn is_duplicate(imports: Seq<Import>, i: int) -> bool {
    exists|j: int| 0 <= j < i && (#[trigger] imports[j]).module_name@ == imports[i].module_name@
}

/// The session after the import at `i`: the module is a top-level symbol.
/// A module that does not exist is an error; one that was imported before
/// in the same list is a warning.
pub open spec fn import_step(s: Session, imports: Seq<Import>, i: int) -> Result<Session, Error> {
    let import = imports[i];
    match find_module(s.modules, import.module_name@) {
        Some(m) => Ok(
            Session {
                symbols: s.symbols.insert(import.module_name@, TypeValue::Struct(m.symbols)),
                warnings: if is_duplicate(imports, i) {
                    s.warnings.push(
                        Warning::DuplicateImport {
                            module_name: import.module_name,
                            span: import.span,
                        },
                    )
                } else {
                    s.warnings
                },
                ..s
            },
        ),
        None => Err(
            Error::CompileError(
                CompileError::UnknownModule { module_name: import.module_name, span: import.span },
            ),
        ),
    }
}

/// The session after the first `n` of `imports`, or the first error.
pub open spec fn imports_step(s: Session, imports: Seq<Import>, n: nat) -> Result<Session, Error>
    decreases n,
{
    if n == 0 || n > imports.len() {
        Ok(s)
    } else {
        match imports_step(s, imports, (n - 1) as nat) {
            Ok(s1) => import_step(s1, imports, n - 1),
            Err(err) => Err(err),
        }
    }
}

/// The patterns that a rule declares, or none.
pub open spec fn declared(rule: Rule) -> Seq<PatternDecl> {
    match rule.patterns {
        Some(decls) => decls@,
        None => Seq::empty(),
    }
}

/// The pool after the identifiers of the first `n` of `decls` were
/// interned, one after the other.
pub open spec fn pool_with(pool: Seq<Seq<char>>, decls: Seq<PatternDecl>, n: nat) -> Seq<Seq<char>>
    decreases n,
{
    if n == 0 || n > decls.len() {
        pool
    } else {
        interned_with(pool_with(pool, decls, (n - 1) as nat), decls[n - 1].identifier@)
    }
}

/// The first `n` patterns of a rule: each with the handle of its
/// identifier and with its number, which counts on from `first`.
pub open spec fn pattern_pairs(pool: Seq<Seq<char>>, first: nat, decls: Seq<PatternDecl>, n: nat) -> Seq<
    (IdentId, PatternId),
>
    decreases n,
{
    if n == 0 || n > decls.len() {
        Seq::empty()
    } else {
        pattern_pairs(pool, first, decls, (n - 1) as nat).push(
            (
                handle_of(pool_with(pool, decls, (n - 1) as nat), decls[n - 1].identifier@) as u32,
                (first + n - 1) as i32,
            ),
        )
    }
}

/// What the condition of `rule` is checked and compiled against in the
/// session `s`.
pub open spec fn rule_env(s: Session, rule: Rule) -> Env {
    let decls = declared(rule);
    Env {
        root: s.symbols,
        scope: None,
        pool: interned_with(pool_with(s.pool, decls, decls.len()), rule.identifier@),
        patterns: pattern_pairs(s.pool, s.patterns, decls, decls.len()),
    }
}

/// The session after `rule`: its patterns and the rule itself are
/// registered under the next numbers, its identifiers are in the pool,
/// and the code of its condition follows the code of the rules before it.
/// A condition that is no boolean is a warning. A condition without a
/// type is an error, and so is a rule or a pattern too many.
pub open spec fn rule_step(s: Session, rule: Rule) -> Result<Session, Error> {
    let decls = declared(rule);
    let env = rule_env(s, rule);
    if s.rules.len() >= MAX_COUNT || s.patterns + decls.len() > MAX_COUNT {
        Err(Error::TooManyRules)
    } else {
        match check(env, TypeSet::scalars_spec(), rule.condition) {
            Err(err) => Err(Error::CompileError(err)),
            Ok(ty) => Ok(
                Session {
                    pool: env.pool,
                    rules: s.rules.push(
                        RuleView {
                            ident: handle_of(
                                pool_with(s.pool, decls, decls.len()),
                                rule.identifier@,
                            ) as u32,
                            patterns: env.patterns,
                        },
                    ),
                    patterns: (s.patterns + decls.len()) as nat,
                    warnings: if ty == Type::Bool {
                        s.warnings
                    } else {
                        s.warnings.push(
                            Warning::NonBooleanAsBoolean { ty, span: rule.condition.span_spec() },
                        )
                    },
                    code: s.code + rule_code(env, rule.condition, s.rules.len() as i32),
                    ..s
                },
            ),
        }
    }
}

/// The session after the first `n` of `rules`, or the first error.
pub open spec fn rules_step(s: Session, rules: Seq<Rule>, n: nat) -> Result<Session, Error>
    decreases n,
{
    if n == 0 || n > rules.len() {
        Ok(s)
    } else {
        match rules_step(s, rules, (n - 1) as nat) {
            Ok(s1) => rule_step(s1, rules[n - 1]),
            Err(err) => Err(err),
        }
    }
}

/// The session after a namespace: after its imports, then its rules.
pub open spec fn namespace_step(s: Session, ns: Namespace) -> Result<Session, Error> {
    match imports_step(s, ns.imports@, ns.imports@.len()) {
        Ok(s1) => rules_step(s1, ns.rules@, ns.rules@.len()),
        Err(err) => Err(err),
    }
}

/// The session after the first `n` of `namespaces`, or the first error.
pub open spec fn namespaces_step(s: Session, namespaces: Seq<Namespace>, n: nat) -> Result<
    Session,
    Error,
>
    decreases n,
{
    if n == 0 || n > namespaces.len() {
        Ok(s)
    } else {
        match namespaces_step(s, namespaces, (n - 1) as nat) {
            Ok(s1) => namespace_step(s1, namespaces[n - 1]),
            Err(err) => Err(err),
        }
    }
}

/// The session after a source text: the warnings of the parser are taken
/// over, then the namespaces are compiled in their order. The first error
/// ends it.
pub open spec fn source_step(s: Session, ast: Ast) -> Result<Session, Error> {
    namespaces_step(
        Session { warnings: s.warnings + ast.warnings@, ..s },
        ast.namespaces@,
        ast.namespaces@.len(),
    )
}

} // verus!
