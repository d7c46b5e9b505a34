//! What the compiler remarks on without refusing the rules.
use vstd::prelude::*;
use crate::ast::{Span, Type};

verus! {

/// A warning. Compilation goes on after it.
#[derive(Debug, PartialEq, Eq)]
pub enum Warning {
    /// A condition of a type other than boolean is taken as a boolean.
    NonBooleanAsBoolean { ty: Type, span: Span },
    /// A module is imported that the same scope imported before.
    DuplicateImport { module_name: String, span: Span },
}

} // verus!
