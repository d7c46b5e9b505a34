//! The modules that rules can import, and the functions that the host
//! provides for them.
use vstd::prelude::*;
use std::rc::Rc;
use crate::ast::Type;
use crate::symbol_table::{same_text, SymbolTable};
use crate::wasm::lower::{
    function_import, function_imports, imports_for, param_types, standard_imports,
};
use crate::wasm::ValType;

pub mod string;

verus! {

/// A module: its name and its symbols.
pub struct ModuleDef {
    pub name: String,
    pub symbols: Rc<SymbolTable>,
}

/// A function that the host provides. Its number is its place among the
/// functions of the host.
#[derive(Debug, PartialEq, Eq)]
pub struct HostFunction {
    /// The name by which the compiled code imports the function.
    pub name: String,
    pub args: Vec<Type>,
    pub result: Type,
}

/// The first of `modules` that has the name `name`.
pub open spec fn find_module(modules: Seq<ModuleDef>, name: Seq<char>) -> Option<ModuleDef>
    decreases modules.len(),
{
    if modules.len() == 0 {
        None
    } else if modules[0].name@ == name {
        Some(modules[0])
    } else {
        find_module(modules.skip(1), name)
    }
}

/// Looks a module up by its name.
pub fn lookup_module<'a>(modules: &'a Vec<ModuleDef>, name: &str) -> (r: Option<&'a ModuleDef>)
    ensures
        match r {
            Some(m) => find_module(modules@, name@) == Some(*m),
            None => find_module(modules@, name@).is_none(),
        },
{
    let mut i: usize = 0;
    proof {
        assert(modules@.skip(0) =~= modules@);
    }
    while i < modules.len()
        invariant
            0 <= i <= modules@.len(),
            find_module(modules@, name@) == find_module(modules@.skip(i as int), name@),
        decreases modules@.len() - i,
    {
        proof {
            assert(modules@.skip(i as int)[0] == modules@[i as int]);
            assert(modules@.skip(i as int).skip(1) =~= modules@.skip(i + 1));
        }
        if same_text(modules[i].name.as_str(), name) {
            return Some(&modules[i]);
        }
        i = i + 1;
    }
    None
}

/// The modules that every compiler knows: `string` and no other.
pub fn builtin_modules() -> (modules: Vec<ModuleDef>)
    ensures
        modules@.len() == 1,
        modules@[0].name@ == "string"@,
        modules@[0].symbols.wf(),
        string::is_string_module(*modules@[0].symbols),
{
    let mut modules: Vec<ModuleDef> = Vec::new();
    modules.push(ModuleDef { name: "string".to_owned(), symbols: Rc::new(string::symbols()) });
    modules
}

/// A function of the host that gives an integer.
fn integer_function(name: &str, args: Vec<Type>) -> (f: HostFunction)
    ensures
        f.name@ == name@,
        f.args@ == args@,
        f.result == Type::Integer,
{
    HostFunction { name: name.to_owned(), args, result: Type::Integer }
}

/// The number of functions that the host provides for the modules.
pub const HOST_FUNCTIONS: usize = 3;

/// The functions that the host provides for the modules, each at the
/// place that is its number.
pub fn host_functions() -> (functions: Vec<HostFunction>)
    ensures
        functions@.len() == HOST_FUNCTIONS,
        functions@[string::LENGTH_FN as int].name@ == "string.length"@,
        functions@[string::LENGTH_FN as int].args@ == seq![Type::String],
        functions@[string::TO_INT_FN as int].name@ == "string.to_int"@,
        functions@[string::TO_INT_FN as int].args@ == seq![Type::String],
        functions@[string::TO_INT_BASE_FN as int].name@ == "string.to_int_base"@,
        functions@[string::TO_INT_BASE_FN as int].args@ == seq![Type::String, Type::Integer],
        forall|i: int| 0 <= i < 3 ==> (#[trigger] functions@[i]).result == Type::Integer,
        imports_for(functions@) == standard_imports(),
{
    let mut text: Vec<Type> = Vec::new();
    text.push(Type::String);
    let mut text_again: Vec<Type> = Vec::new();
    text_again.push(Type::String);
    let mut text_and_base: Vec<Type> = Vec::new();
    text_and_base.push(Type::String);
    text_and_base.push(Type::Integer);
    proof {
        assert(text@ =~= seq![Type::String]);
        assert(text_again@ =~= seq![Type::String]);
        assert(text_and_base@ =~= seq![Type::String, Type::Integer]);
    }
    let mut functions: Vec<HostFunction> = Vec::new();
    functions.push(integer_function("string.length", text));
    functions.push(integer_function("string.to_int", text_again));
    functions.push(integer_function("string.to_int_base", text_and_base));
    proof {
        assert(param_types(seq![Type::String]) =~= seq![ValType::I64]);
        assert(param_types(seq![Type::String, Type::Integer]) =~= seq![ValType::I64, ValType::I64]);
        assert(function_imports(functions@, 3) =~= seq![
            function_import(functions@[0]),
            function_import(functions@[1]),
            function_import(functions@[2]),
        ]);
        assert(imports_for(functions@) =~= standard_imports());
    }
    functions
}

} // verus!
