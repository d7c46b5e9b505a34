//! The semantic check: every expression of a condition gets a type, and
//! a condition that has none is refused.
use vstd::prelude::*;
use crate::ast::{CmpOp, Expr, Span, Type};
use crate::compiler::errors::{CompileError, TypeSet};
use crate::compiler::{find_pattern, Context, Env};
use crate::symbol_table::{
    lookup, scope_of, scoped_get, FuncSignature, SymbolTable, TypeValue,
};
use crate::warnings::Warning;

verus! {

/// What a name or a chain of field accesses stands for. A name is looked
/// up in `scope` where there is one, else among the top-level symbols; the
/// right side of a field access is looked up in the structure that its
/// left side stands for.
pub open spec fn resolve_spec(
    root: Map<Seq<char>, TypeValue>,
    scope: Option<SymbolTable>,
    e: Expr,
) -> Result<
    TypeValue,
    CompileError,
>
    decreases e,
{
    match e {
        Expr::Ident { name, span } => {
            match scoped_get(root, scope, name@) {
                Some(v) => Ok(v),
                None => Err(CompileError::UnknownIdentifier { name, span }),
            }
        },
        Expr::FieldAccess { lhs, rhs, span } => match resolve_spec(root, scope, *lhs) {
            Err(err) => Err(err),
            Ok(TypeValue::Struct(t)) => resolve_spec(root, Some(*t), *rhs),
            Ok(other) => Err(
                CompileError::WrongType {
                    expected: TypeSet::only_spec(Type::Struct),
                    actual: other.ty_spec(),
                    span: lhs.span_spec(),
                },
            ),
        },
        _ => Err(CompileError::NotAName { span: e.span_spec() }),
    }
}

/// The first of `sigs` that takes arguments of the types `args`.
pub open spec fn matching(sigs: Seq<FuncSignature>, args: Seq<Type>) -> Option<FuncSignature>
    decreases sigs.len(),
{
    if sigs.len() == 0 {
        None
    } else if sigs[0].args@ == args {
        Some(sigs[0])
    } else {
        matching(sigs.skip(1), args)
    }
}

/// The types that the left operand of a comparison can have: a number,
/// or a string where two strings are compared for equality. The right
/// operand has the type of the left.
pub open spec fn operand_types(op: CmpOp) -> TypeSet {
    match op {
        CmpOp::Eq | CmpOp::Ne => TypeSet::comparable_spec(),
        _ => TypeSet::ordered_spec(),
    }
}

/// The type of `e`, or the first error in it.
pub open spec fn type_of(env: Env, e: Expr) -> Result<Type, CompileError>
    decreases e, 2nat, 0nat,
{
    match e {
        Expr::True { .. } | Expr::False { .. } => Ok(Type::Bool),
        Expr::LiteralInt { .. } => Ok(Type::Integer),
        Expr::LiteralFlt { .. } => Ok(Type::Float),
        Expr::LiteralStr { .. } => Ok(Type::String),
        Expr::Ident { .. } | Expr::FieldAccess { .. } => match resolve_spec(env.root, env.scope, e) {
            Ok(v) => Ok(v.ty_spec()),
            Err(err) => Err(err),
        },
        Expr::PatternMatch { ident, span } => match find_pattern(env.pool, env.patterns, ident@) {
            Some(_) => Ok(Type::Bool),
            None => Err(CompileError::UnknownPattern { ident, span }),
        },
        Expr::PatternOffset { ident, span } => match find_pattern(env.pool, env.patterns, ident@) {
            Some(_) => Ok(Type::Integer),
            None => Err(CompileError::UnknownPattern { ident, span }),
        },
        Expr::Not { operand, .. } => match check(env, TypeSet::scalars_spec(), *operand) {
            Ok(_) => Ok(Type::Bool),
            Err(err) => Err(err),
        },
        Expr::And { lhs, rhs, .. } | Expr::Or { lhs, rhs, .. } => match check(
            env,
            TypeSet::scalars_spec(),
            *lhs,
        ) {
            Err(err) => Err(err),
            Ok(_) => match check(env, TypeSet::scalars_spec(), *rhs) {
                Ok(_) => Ok(Type::Bool),
                Err(err) => Err(err),
            },
        },
        Expr::Cmp { op, lhs, rhs, .. } => match check(env, operand_types(op), *lhs) {
            Err(err) => Err(err),
            Ok(ty) => match check(env, TypeSet::only_spec(ty), *rhs) {
                Ok(_) => Ok(Type::Bool),
                Err(err) => Err(err),
            },
        },
        Expr::FnCall { callee, args, span } => match signature_of(env, e) {
            Ok(sig) => Ok(sig.result),
            Err(err) => Err(err),
        },
    }
}

/// The signature by which the call `e` calls its function: the callee
/// must stand for a function, every argument must have a scalar type, and
/// the signature is the first that takes arguments of these types.
pub open spec fn signature_of(env: Env, e: Expr) -> Result<FuncSignature, CompileError>
    decreases e, 1nat, 0nat,
{
    match e {
        Expr::FnCall { callee, args, span } => match resolve_spec(env.root, env.scope, *callee) {
            Err(err) => Err(err),
            Ok(TypeValue::Func(sigs)) => match arg_types(env, e, args@.len()) {
                Err(err) => Err(err),
                Ok(types) => match matching(sigs@, types) {
                    Some(sig) => Ok(sig),
                    None => Err(CompileError::WrongArguments { span }),
                },
            },
            Ok(other) => Err(
                CompileError::WrongType {
                    expected: TypeSet::only_spec(Type::Func),
                    actual: other.ty_spec(),
                    span: callee.span_spec(),
                },
            ),
        },
        _ => Err(CompileError::NotAName { span: e.span_spec() }),
    }
}

/// The types of the first `n` arguments of the call `e`, or the first
/// error in them.
pub open spec fn arg_types(env: Env, e: Expr, n: nat) -> Result<Seq<Type>, CompileError>
    decreases e, 0nat, n,
{
    match e {
        Expr::FnCall { args, .. } => if n == 0 || n > args@.len() {
            Ok(Seq::empty())
        } else {
            match arg_types(env, e, (n - 1) as nat) {
                Err(err) => Err(err),
                Ok(types) => match check(env, TypeSet::scalars_spec(), args@[n - 1]) {
                    Err(err) => Err(err),
                    Ok(t) => Ok(types.push(t)),
                },
            }
        },
        _ => Ok(Seq::empty()),
    }
}

/// The type of `e` where it is one of `allowed`; an error that names the
/// types expected, the type found and the span of `e` where it is not;
/// the first error in `e` where it has no type.
pub open spec fn check(env: Env, allowed: TypeSet, e: Expr) -> Result<Type, CompileError>
    decreases e, 3nat, 0nat,
{
    match type_of(env, e) {
        Err(err) => Err(err),
        Ok(t) => if allowed.has(t) {
            Ok(t)
        } else {
            Err(CompileError::WrongType { expected: allowed, actual: t, span: e.span_spec() })
        },
    }
}

/// Resolves a name or a chain of field accesses.
pub fn resolve<'a>(root: &'a SymbolTable, scope: Option<&'a SymbolTable>, e: &Expr) -> (r: Result<
    &'a TypeValue,
    CompileError,
>)
    ensures
        match r {
            Ok(v) => resolve_spec(root.as_map(), scope_of(scope), *e) == Ok::<TypeValue, CompileError>(*v),
            Err(err) => resolve_spec(root.as_map(), scope_of(scope), *e) == Err::<TypeValue, CompileError>(
                err,
            ),
        },
    decreases *e,
{
    match e {
        Expr::Ident { name, span } => {
            match lookup(root, scope, name.as_str()) {
                Some(v) => Ok(v),
                None => Err(CompileError::UnknownIdentifier { name: name.clone(), span: *span }),
            }
        },
        Expr::FieldAccess { lhs, rhs, .. } => match resolve(root, scope, lhs) {
            Err(err) => Err(err),
            Ok(TypeValue::Struct(t)) => resolve(root, Some(&**t), rhs),
            Ok(other) => Err(
                CompileError::WrongType {
                    expected: TypeSet::only(Type::Struct),
                    actual: other.ty(),
                    span: lhs.span(),
                },
            ),
        },
        _ => Err(CompileError::NotAName { span: e.span() }),
    }
}

/// Whether the two lists hold the same types.
fn same_types(a: &Vec<Type>, b: &Vec<Type>) -> (r: bool)
    ensures
        r == (a@ == b@),
{
    if a.len() != b.len() {
        return false;
    }
    let mut i: usize = 0;
    while i < a.len()
        invariant
            0 <= i <= a@.len(),
            a@.len() == b@.len(),
            forall|j: int| 0 <= j < i ==> a@[j] == b@[j],
        decreases a@.len() - i,
    {
        if a[i] != b[i] {
            return false;
        }
        i = i + 1;
    }
    proof {
        assert(a@ =~= b@);
    }
    true
}

/// The first signature that takes arguments of the given types.
fn find_signature<'a>(sigs: &'a Vec<FuncSignature>, types: &Vec<Type>) -> (r: Option<
    &'a FuncSignature,
>)
    ensures
        match r {
            Some(sig) => matching(sigs@, types@) == Some(*sig),
            None => matching(sigs@, types@).is_none(),
        },
{
    let mut i: usize = 0;
    proof {
        assert(sigs@.skip(0) =~= sigs@);
    }
    while i < sigs.len()
        invariant
            0 <= i <= sigs@.len(),
            matching(sigs@, types@) == matching(sigs@.skip(i as int), types@),
        decreases sigs@.len() - i,
    {
        proof {
            assert(sigs@.skip(i as int)[0] == sigs@[i as int]);
            assert(sigs@.skip(i as int).skip(1) =~= sigs@.skip(i + 1));
        }
        if same_types(&sigs[i].args, types) {
            return Some(&sigs[i]);
        }
        i = i + 1;
    }
    None
}

/// Finds the signature by which a call calls its function.
pub fn call_signature<'a>(ctx: &Context<'a>, e: &Expr) -> (r: Result<&'a FuncSignature, CompileError>)
    requires
        ctx.wf(),
    ensures
        match r {
            Ok(sig) => signature_of(ctx.env(), *e) == Ok::<FuncSignature, CompileError>(*sig),
            Err(err) => signature_of(ctx.env(), *e) == Err::<FuncSignature, CompileError>(err),
        },
    decreases *e, 1nat, 0nat,
{
    match e {
        Expr::FnCall { callee, args, span } => match resolve(
            ctx.root_sym_tbl,
            ctx.current_struct,
            callee,
        ) {
            Err(err) => Err(err),
            Ok(TypeValue::Func(sigs)) => {
                let mut types: Vec<Type> = Vec::new();
                let mut i: usize = 0;
                while i < args.len()
                    invariant
                        0 <= i <= args@.len(),
                        ctx.wf(),
                        *e == (Expr::FnCall { callee: *callee, args: *args, span: *span }),
                        resolve_spec(ctx.env().root, ctx.env().scope, **callee) == Ok::<
                            TypeValue,
                            CompileError,
                        >(TypeValue::Func(*sigs)),
                        arg_types(ctx.env(), *e, i as nat) == Ok::<Seq<Type>, CompileError>(types@),
                    decreases args@.len() - i,
                {
                    match semcheck(ctx, TypeSet::scalars(), &args[i]) {
                        Err(err) => {
                            proof {
                                assert(arg_types(ctx.env(), *e, (i + 1) as nat) == Err::<
                                    Seq<Type>,
                                    CompileError,
                                >(err));
                                lemma_arg_error(ctx.env(), *e, (i + 1) as nat, args@.len());
                            }
                            return Err(err);
                        },
                        Ok(t) => {
                            types.push(t);
                        },
                    }
                    i = i + 1;
                }
                match find_signature(sigs, &types) {
                    Some(sig) => Ok(sig),
                    None => Err(CompileError::WrongArguments { span: *span }),
                }
            },
            Ok(other) => Err(
                CompileError::WrongType {
                    expected: TypeSet::only(Type::Func),
                    actual: other.ty(),
                    span: callee.span(),
                },
            ),
        },
        _ => Err(CompileError::NotAName { span: e.span() }),
    }
}

/// An error among the first `n` arguments is the error of all of them.
pub proof fn lemma_arg_error(env: Env, e: Expr, n: nat, m: nat)
    requires
        e is FnCall,
        n <= m <= e->args@.len(),
        arg_types(env, e, n) is Err,
    ensures
        arg_types(env, e, m) == arg_types(env, e, n),
    decreases m,
{
    if n < m {
        lemma_arg_error(env, e, n, (m - 1) as nat);
    }
}

/// Gives `e` its type.
pub fn type_check(ctx: &Context, e: &Expr) -> (r: Result<Type, CompileError>)
    requires
        ctx.wf(),
    ensures
        r == type_of(ctx.env(), *e),
    decreases *e, 2nat, 0nat,
{
    match e {
        Expr::True { .. } | Expr::False { .. } => Ok(Type::Bool),
        Expr::LiteralInt { .. } => Ok(Type::Integer),
        Expr::LiteralFlt { .. } => Ok(Type::Float),
        Expr::LiteralStr { .. } => Ok(Type::String),
        Expr::Ident { .. } | Expr::FieldAccess { .. } => match resolve(
            ctx.root_sym_tbl,
            ctx.current_struct,
            e,
        ) {
            Ok(v) => Ok(v.ty()),
            Err(err) => Err(err),
        },
        Expr::PatternMatch { ident, span } => match ctx.find_pattern_in_current_rule(
            ident.as_str(),
        ) {
            Some(_) => Ok(Type::Bool),
            None => Err(CompileError::UnknownPattern { ident: ident.clone(), span: *span }),
        },
        Expr::PatternOffset { ident, span } => match ctx.find_pattern_in_current_rule(
            ident.as_str(),
        ) {
            Some(_) => Ok(Type::Integer),
            None => Err(CompileError::UnknownPattern { ident: ident.clone(), span: *span }),
        },
        Expr::Not { operand, .. } => match semcheck(ctx, TypeSet::scalars(), operand) {
            Ok(_) => Ok(Type::Bool),
            Err(err) => Err(err),
        },
        Expr::And { lhs, rhs, .. } | Expr::Or { lhs, rhs, .. } => match semcheck(
            ctx,
            TypeSet::scalars(),
            lhs,
        ) {
            Err(err) => Err(err),
            Ok(_) => match semcheck(ctx, TypeSet::scalars(), rhs) {
                Ok(_) => Ok(Type::Bool),
                Err(err) => Err(err),
            },
        },
        Expr::Cmp { op, lhs, rhs, .. } => {
            let allowed = match op {
                CmpOp::Eq | CmpOp::Ne => TypeSet::comparable(),
                _ => TypeSet::ordered(),
            };
            match semcheck(ctx, allowed, lhs) {
                Err(err) => Err(err),
                Ok(ty) => match semcheck(ctx, TypeSet::only(ty), rhs) {
                    Ok(_) => Ok(Type::Bool),
                    Err(err) => Err(err),
                },
            }
        },
        Expr::FnCall { .. } => match call_signature(ctx, e) {
            Ok(sig) => Ok(sig.result),
            Err(err) => Err(err),
        },
    }
}

/// Checks that `e` has a type and that the type is one of `allowed`.
///
/// The error names the types expected, the type found and the span of
/// `e` where the type is not allowed; where `e` has no type, it is the
/// first error in `e`.
pub fn semcheck(ctx: &Context, allowed: TypeSet, e: &Expr) -> (r: Result<Type, CompileError>)
    requires
        ctx.wf(),
    ensures
        r == check(ctx.env(), allowed, *e),
    decreases *e, 3nat, 0nat,
{
    match type_check(ctx, e) {
        Err(err) => Err(err),
        Ok(t) => if allowed.contains(t) {
            Ok(t)
        } else {
            Err(CompileError::WrongType { expected: allowed, actual: t, span: e.span() })
        },
    }
}

/// Records a warning where a condition of type `ty` has to be taken as a
/// boolean.
pub fn warning_if_not_boolean(ctx: &mut Context, ty: Type, span: Span)
    ensures
        final(ctx).warnings@ == (if ty == Type::Bool {
            old(ctx).warnings@
        } else {
            old(ctx).warnings@.push(Warning::NonBooleanAsBoolean { ty, span })
        }),
        final(ctx).root_sym_tbl == old(ctx).root_sym_tbl,
        final(ctx).current_struct == old(ctx).current_struct,
        final(ctx).ident_pool == old(ctx).ident_pool,
        final(ctx).current_rule == old(ctx).current_rule,
        final(ctx).exception_handler_stack == old(ctx).exception_handler_stack,
        final(ctx).raise_emitted == old(ctx).raise_emitted,
{
    if ty != Type::Bool {
        ctx.warnings.push(Warning::NonBooleanAsBoolean { ty, span });
    }
}

} // verus!
