//! The syntax tree of a set of rules, as a parser hands it to the compiler.
use vstd::prelude::*;
use crate::warnings::Warning;

verus! {

/// A range of positions in the source text.
#[derive(Clone, Copy, Debug, PartialEq, Eq, Structural)]
pub struct Span {
    pub start: usize,
    pub end: usize,
}

/// The type of an expression.
#[derive(Clone, Copy, Debug, PartialEq, Eq, Structural)]
pub enum Type {
    Bool,
    Integer,
    Float,
    String,
    Struct,
    Func,
}

/// A comparison operator.
#[derive(Clone, Copy, Debug, PartialEq, Eq, Structural)]
pub enum CmpOp {
    Eq,
    Ne,
    Lt,
    Gt,
    Le,
    Ge,
}

/// An expression of a rule's condition. Every node carries the span of
/// the text that it was read from.
#[derive(Debug, PartialEq, Eq)]
#[allow(inconsistent_fields)]
pub enum Expr {
    True { span: Span },
    False { span: Span },
    /// An integer literal.
    LiteralInt { value: i64, span: Span },
    /// A floating-point literal, held as the bits of its 64-bit encoding.
    LiteralFlt { bits: u64, span: Span },
    /// A string literal.
    LiteralStr { value: Vec<u8>, span: Span },
    /// A name, looked up in the structure that the enclosing field access
    /// selects, or among the top-level symbols.
    Ident { name: String, span: Span },
    /// `$a`: whether the pattern matched.
    PatternMatch { ident: String, span: Span },
    /// `@a`: the offset of the pattern's first match, undefined if there
    /// is none.
    PatternOffset { ident: String, span: Span },
    /// `lhs.rhs`
    FieldAccess { lhs: Box<Expr>, rhs: Box<Expr>, span: Span },
    /// `callee(args)`
    FnCall { callee: Box<Expr>, args: Vec<Expr>, span: Span },
    Not { operand: Box<Expr>, span: Span },
    And { lhs: Box<Expr>, rhs: Box<Expr>, span: Span },
    Or { lhs: Box<Expr>, rhs: Box<Expr>, span: Span },
    /// A comparison of two integers.
    Cmp { op: CmpOp, lhs: Box<Expr>, rhs: Box<Expr>, span: Span },
}

impl Expr {
    /// The span of the expression.
    pub open spec fn span_spec(&self) -> Span {
        match self {
            Expr::True { span } => *span,
            Expr::False { span } => *span,
            Expr::LiteralInt { span, .. } => *span,
            Expr::LiteralFlt { span, .. } => *span,
            Expr::LiteralStr { span, .. } => *span,
            Expr::Ident { span, .. } => *span,
            Expr::PatternMatch { span, .. } => *span,
            Expr::PatternOffset { span, .. } => *span,
            Expr::FieldAccess { span, .. } => *span,
            Expr::FnCall { span, .. } => *span,
            Expr::Not { span, .. } => *span,
            Expr::And { span, .. } => *span,
            Expr::Or { span, .. } => *span,
            Expr::Cmp { span, .. } => *span,
        }
    }

    /// The span of the expression.
    pub fn span(&self) -> (r: Span)
        ensures
            r == self.span_spec(),
    {
        match self {
            Expr::True { span } => *span,
            Expr::False { span } => *span,
            Expr::LiteralInt { span, .. } => *span,
            Expr::LiteralFlt { span, .. } => *span,
            Expr::LiteralStr { span, .. } => *span,
            Expr::Ident { span, .. } => *span,
            Expr::PatternMatch { span, .. } => *span,
            Expr::PatternOffset { span, .. } => *span,
            Expr::FieldAccess { span, .. } => *span,
            Expr::FnCall { span, .. } => *span,
            Expr::Not { span, .. } => *span,
            Expr::And { span, .. } => *span,
            Expr::Or { span, .. } => *span,
            Expr::Cmp { span, .. } => *span,
        }
    }
}

/// The declaration of a pattern in a rule.
#[derive(Debug, PartialEq, Eq)]
pub struct PatternDecl {
    /// The pattern's identifier, such as `$a`.
    pub identifier: String,
    pub span: Span,
}

/// A rule: its identifier, its patterns in the order of their declaration,
/// and its condition.
#[derive(Debug, PartialEq, Eq)]
pub struct Rule {
    pub identifier: String,
    pub patterns: Option<Vec<PatternDecl>>,
    pub condition: Expr,
}

/// An `import` statement.
#[derive(Debug, PartialEq, Eq)]
pub struct Import {
    pub module_name: String,
    pub span: Span,
}

/// The imports and the rules that share one scope.
#[derive(Debug, PartialEq, Eq)]
pub struct Namespace {
    pub imports: Vec<Import>,
    pub rules: Vec<Rule>,
}

/// One parsed source text: its namespaces, and the warnings that the
/// parser gave.
#[derive(Debug, PartialEq, Eq)]
pub struct Ast {
    pub namespaces: Vec<Namespace>,
    pub warnings: Vec<Warning>,
}

} // verus!
