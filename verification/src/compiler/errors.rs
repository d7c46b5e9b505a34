//! The errors of the compiler.
use vstd::prelude::*;
use crate::ast::{Span, Type};

verus! {

/// A set of types.
#[derive(Clone, Copy, Debug, PartialEq, Eq, Structural)]
pub struct TypeSet {
    pub bool_: bool,
    pub integer: bool,
    pub float: bool,
    pub string: bool,
    pub struct_: bool,
    pub func: bool,
}

impl TypeSet {
    /// Whether `ty` is in the set.
    pub open spec fn has(&self, ty: Type) -> bool {
        match ty {
            Type::Bool => self.bool_,
            Type::Integer => self.integer,
            Type::Float => self.float,
            Type::String => self.string,
            Type::Struct => self.struct_,
            Type::Func => self.func,
        }
    }

    /// Whether `ty` is in the set.
    pub fn contains(&self, ty: Type) -> (r: bool)
        ensures
            r == self.has(ty),
    {
        match ty {
            Type::Bool => self.bool_,
            Type::Integer => self.integer,
            Type::Float => self.float,
            Type::String => self.string,
            Type::Struct => self.struct_,
            Type::Func => self.func,
        }
    }

    /// The set of `ty` alone.
    pub open spec fn only_spec(ty: Type) -> TypeSet {
        TypeSet {
            bool_: ty == Type::Bool,
            integer: ty == Type::Integer,
            float: ty == Type::Float,
            string: ty == Type::String,
            struct_: ty == Type::Struct,
            func: ty == Type::Func,
        }
    }

    /// The set of `ty` alone.
    pub fn only(ty: Type) -> (s: TypeSet)
        ensures
            s == Self::only_spec(ty),
    {
        TypeSet {
            bool_: ty == Type::Bool,
            integer: ty == Type::Integer,
            float: ty == Type::Float,
            string: ty == Type::String,
            struct_: ty == Type::Struct,
            func: ty == Type::Func,
        }
    }

    /// The types of what can be compared for equality: numbers and
    /// strings.
    pub open spec fn comparable_spec() -> TypeSet {
        TypeSet {
            bool_: false,
            integer: true,
            float: true,
            string: true,
            struct_: false,
            func: false,
        }
    }

    /// The types of what can be compared for equality.
    pub fn comparable() -> (s: TypeSet)
        ensures
            s == Self::comparable_spec(),
    {
        TypeSet {
            bool_: false,
            integer: true,
            float: true,
            string: true,
            struct_: false,
            func: false,
        }
    }

    /// The types of what has an order: numbers.
    pub open spec fn ordered_spec() -> TypeSet {
        TypeSet {
            bool_: false,
            integer: true,
            float: true,
            string: false,
            struct_: false,
            func: false,
        }
    }

    /// The types of what has an order.
    pub fn ordered() -> (s: TypeSet)
        ensures
            s == Self::ordered_spec(),
    {
        TypeSet {
            bool_: false,
            integer: true,
            float: true,
            string: false,
            struct_: false,
            func: false,
        }
    }

    /// The four types that a value can have: the types that a condition
    /// and the operand of a boolean operator may be of.
    pub open spec fn scalars_spec() -> TypeSet {
        TypeSet { bool_: true, integer: true, float: true, string: true, struct_: false, func: false }
    }

    /// The four types that a value can have.
    pub fn scalars() -> (s: TypeSet)
        ensures
            s == Self::scalars_spec(),
    {
        TypeSet { bool_: true, integer: true, float: true, string: true, struct_: false, func: false }
    }
}

/// An error in the rules themselves. Each one carries the span of the
/// text that is at fault.
#[derive(Debug, PartialEq, Eq)]
pub enum CompileError {
    /// A module is imported that does not exist.
    UnknownModule { module_name: String, span: Span },
    /// A name stands for nothing.
    UnknownIdentifier { name: String, span: Span },
    /// The rule declares no pattern of that name.
    UnknownPattern { ident: String, span: Span },
    /// An expression has a type that is not accepted in its place.
    WrongType { expected: TypeSet, actual: Type, span: Span },
    /// The function cannot be called with arguments of these types.
    WrongArguments { span: Span },
    /// A name is required, in a field access or as the function of a call.
    NotAName { span: Span },
}

impl CompileError {
    /// The span of the text that is at fault.
    pub fn span(&self) -> (r: Span)
        ensures
            r == match *self {
                CompileError::UnknownModule { span, .. } => span,
                CompileError::UnknownIdentifier { span, .. } => span,
                CompileError::UnknownPattern { span, .. } => span,
                CompileError::WrongType { span, .. } => span,
                CompileError::WrongArguments { span } => span,
                CompileError::NotAName { span } => span,
            },
    {
        match self {
            CompileError::UnknownModule { span, .. } => *span,
            CompileError::UnknownIdentifier { span, .. } => *span,
            CompileError::UnknownPattern { span, .. } => *span,
            CompileError::WrongType { span, .. } => *span,
            CompileError::WrongArguments { span } => *span,
            CompileError::NotAName { span } => *span,
        }
    }
}

/// An error of the compiler.
#[derive(Debug, PartialEq, Eq)]
pub enum Error {
    /// The rules are at fault.
    CompileError(CompileError),
    /// More rules or patterns than a compiler can number.
    TooManyRules,
    /// The code that the compiler generated was not accepted when it was
    /// compiled for this machine: a defect of the compiler, not of the
    /// rules.
    InvalidCode,
}

} // verus!
