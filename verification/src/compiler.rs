//! The compiler: it takes parsed rules and produces them in compiled form.
use vstd::prelude::*;
use std::rc::Rc;
use crate::ast::{Ast, Expr, Import, Namespace, PatternDecl, Rule, Type};
use crate::compiler::emit::{emit_rule, rule_code};
use crate::compiler::errors::{CompileError, Error, TypeSet};
use crate::compiler::semcheck::{check, semcheck, warning_if_not_boolean};
use crate::compiler::session::{
    import_step, imports_step, is_duplicate, namespace_step, namespaces_step, pattern_pairs,
    pool_with, rule_env, rule_step, rules_step, source_step, Session, MAX_COUNT,
};
use crate::compiler::validity::{
    lemma_import_valid, lemma_rule_valid, modules_ok, session_valid, value_ok,
};
use crate::ident_pool::{distinct, IdentId, IdentPool};
use crate::modules::string::is_string_module;
use crate::modules::{
    builtin_modules, host_functions, lookup_module, HostFunction, ModuleDef, HOST_FUNCTIONS,
};
use crate::symbol_table::{same_text, SymbolTable, TypeValue};
use crate::warnings::Warning;
use crate::wasm::builder::module_bytes;
use crate::wasm::lower::{low, standard_imports, strings_of, texts, BinaryModule};
use crate::wasm::{lemma_ops_empty, ops, Instr, ModuleBuilder, ValType};

pub mod correctness;
pub mod emit;
pub mod errors;
pub mod laws;
pub mod semantics;
pub mod semcheck;
pub mod session;
pub mod validity;

verus! {

/// Number of a pattern among all the patterns of a compiler.
pub type PatternId = i32;

/// Number of a rule among all the rules of a compiler.
pub type RuleId = i32;

/// A compiled rule.
#[derive(Debug, PartialEq, Eq)]
pub struct CompiledRule {
    /// The handle of the rule's identifier in the identifier pool.
    pub ident: IdentId,
    /// The patterns that the rule declares, in the order of their
    /// declaration, each with the handle of its identifier.
    pub patterns: Vec<(IdentId, PatternId)>,
}

/// A compiled rule as a mathematical value.
pub ghost struct RuleView {
    pub ident: IdentId,
    pub patterns: Seq<(IdentId, PatternId)>,
}

impl View for CompiledRule {
    type V = RuleView;

    open spec fn view(&self) -> RuleView {
        RuleView { ident: self.ident, patterns: self.patterns@ }
    }
}

/// The pattern that `ident` names: the first of `patterns` whose
/// identifier is `ident` in `pool`.
pub open spec fn find_pattern(
    pool: Seq<Seq<char>>,
    patterns: Seq<(IdentId, PatternId)>,
    ident: Seq<char>,
) -> Option<PatternId>
    decreases patterns.len(),
{
    if patterns.len() == 0 {
        None
    } else if pool[patterns[0].0 as int] == ident {
        Some(patterns[0].1)
    } else {
        find_pattern(pool, patterns.skip(1), ident)
    }
}

/// What one rule is checked and compiled against: the top-level symbols,
/// the identifier pool, and the patterns of the rule.
pub ghost struct Env {
    pub root: Map<Seq<char>, TypeValue>,
    pub scope: Option<SymbolTable>,
    pub pool: Seq<Seq<char>>,
    pub patterns: Seq<(IdentId, PatternId)>,
}

/// A handler for undefined values: the type of the value that its block
/// leaves, and the branch depth of the block from the point where code is
/// being generated.
#[derive(Clone, Copy, Debug, PartialEq, Eq, Structural)]
pub struct HandlerFrame {
    pub ty: ValType,
    pub depth: u32,
}

/// The state of the compilation of one rule.
pub struct Context<'a> {
    /// The top-level symbols, such as the names of the imported modules.
    pub root_sym_tbl: &'a SymbolTable,
    /// The structure in which names are looked up, in place of the
    /// top-level symbols.
    pub current_struct: Option<&'a SymbolTable>,
    /// The pool of the identifiers of rules and patterns.
    pub ident_pool: &'a IdentPool,
    /// The rule that is being compiled.
    pub current_rule: &'a CompiledRule,
    /// The warnings that the compilation of this rule has given.
    pub warnings: Vec<Warning>,
    /// The handlers for undefined values, innermost last.
    pub exception_handler_stack: Vec<HandlerFrame>,
    /// Whether the code generated last ends in a branch to a handler.
    pub raise_emitted: bool,
}

impl<'a> Context<'a> {
    /// What the rule is checked against.
    pub open spec fn env(&self) -> Env {
        Env {
            root: self.root_sym_tbl.as_map(),
            scope: match self.current_struct {
                Some(t) => Some(*t),
                None => None,
            },
            pool: self.ident_pool@,
            patterns: self.current_rule.patterns@,
        }
    }

    /// Every identifier of the rule is in the pool.
    pub open spec fn wf(&self) -> bool {
        &&& self.current_rule.ident < self.ident_pool@.len()
        &&& forall|i: int|
            0 <= i < self.current_rule.patterns@.len() ==> (
            #[trigger] self.current_rule.patterns@[i]).0 < self.ident_pool@.len()
    }

    /// The branch depth of the innermost handler.
    pub open spec fn handler_depth(&self) -> nat {
        self.exception_handler_stack@.last().depth as nat
    }

    /// Whether `other` differs from this context at most in the flag that
    /// says whether a raise was generated last.
    pub open spec fn same_but_flag(&self, other: &Self) -> bool {
        &&& self.root_sym_tbl == other.root_sym_tbl
        &&& self.current_struct == other.current_struct
        &&& self.ident_pool == other.ident_pool
        &&& self.current_rule == other.current_rule
        &&& self.warnings@ == other.warnings@
        &&& self.exception_handler_stack@ == other.exception_handler_stack@
    }

    /// The identifier with the given handle.
    pub fn resolve_ident(&self, ident_id: IdentId) -> (text: &str)
        requires
            ident_id < self.ident_pool@.len(),
        ensures
            text@ == self.ident_pool@[ident_id as int],
    {
        self.ident_pool.resolve(ident_id)
    }

    /// Searches the current rule for the pattern that `ident` names (such
    /// as `$a`).
    pub fn find_pattern_in_current_rule(&self, ident: &str) -> (r: Option<PatternId>)
        requires
            self.wf(),
        ensures
            r == find_pattern(self.env().pool, self.env().patterns, ident@),
    {
        let patterns = &self.current_rule.patterns;
        let mut i: usize = 0;
        proof {
            assert(patterns@.skip(0) =~= patterns@);
        }
        while i < patterns.len()
            invariant
                0 <= i <= patterns@.len(),
                patterns@ == self.current_rule.patterns@,
                self.wf(),
                find_pattern(self.ident_pool@, patterns@, ident@) == find_pattern(
                    self.ident_pool@,
                    patterns@.skip(i as int),
                    ident@,
                ),
            decreases patterns@.len() - i,
        {
            let (ident_id, pattern_id) = patterns[i];
            proof {
                assert(patterns@.skip(i as int)[0] == patterns@[i as int]);
                assert(patterns@.skip(i as int).skip(1) =~= patterns@.skip(i + 1));
            }
            if same_text(self.resolve_ident(ident_id), ident) {
                return Some(pattern_id);
            }
            i = i + 1;
        }
        None
    }

    /// The number of the pattern that `ident` names in the current rule,
    /// which must have such a pattern.
    pub fn get_pattern_from_current_rule(&self, ident: &str) -> (id: PatternId)
        requires
            self.wf(),
            find_pattern(self.env().pool, self.env().patterns, ident@).is_some(),
        ensures
            Some(id) == find_pattern(self.env().pool, self.env().patterns, ident@),
    {
        match self.find_pattern_in_current_rule(ident) {
            Some(id) => id,
            None => 0,
        }
    }
}

/// A pattern in the compiled rules.
#[derive(Debug, PartialEq, Eq)]
pub struct Pattern {}

/// The rules as mathematical values.
pub open spec fn rule_views(rules: Seq<CompiledRule>) -> Seq<RuleView> {
    Seq::new(rules.len(), |i: int| rules[i]@)
}

/// Whether every identifier of `rule` is in a pool of `n` identifiers.
pub open spec fn idents_in_pool(rule: RuleView, n: nat) -> bool {
    &&& rule.ident < n
    &&& forall|j: int| 0 <= j < rule.patterns.len() ==> (#[trigger] rule.patterns[j]).0 < n
}

/// Whether the session can be the state of a compiler: no identifier is
/// in the pool twice, every identifier of a rule is in the pool, and the
/// rules and patterns can be numbered.
pub open spec fn session_wf(s: Session) -> bool {
    &&& distinct(s.pool)
    &&& s.rules.len() <= MAX_COUNT
    &&& s.patterns <= MAX_COUNT
    &&& s.pool.len() <= s.rules.len() + s.patterns
    &&& forall|i: int| 0 <= i < s.rules.len() ==> idents_in_pool(#[trigger] s.rules[i], s.pool.len())
}

/// A compiler of rules.
///
/// Source texts are added one after the other with `add_source`, and
/// `build` ends the compilation and gives the compiled rules. Both take
/// the compiler by value: once it is built, nothing can be added.
pub struct Compiler {
    colorize_errors: bool,
    /// The modules that rules can import.
    modules: Vec<ModuleDef>,
    sym_tbl: SymbolTable,
    /// The pool of the identifiers of rules and patterns. Each identifier
    /// is there once, whatever the number of rules that use it.
    ident_pool: IdentPool,
    /// The builder of the module that holds the code of the conditions.
    wasm_mod: ModuleBuilder,
    /// The rules. The number of a rule is its place here.
    rules: Vec<CompiledRule>,
    /// The patterns of all rules. The number of a pattern is its place
    /// here.
    patterns: Vec<Pattern>,
    /// The warnings given while the rules were compiled.
    warnings: Vec<Warning>,
}

impl View for Compiler {
    type V = Session;

    closed spec fn view(&self) -> Session {
        Session {
            modules: self.modules@,
            symbols: self.sym_tbl.as_map(),
            pool: self.ident_pool@,
            rules: rule_views(self.rules@),
            patterns: self.patterns@.len(),
            warnings: self.warnings@,
            code: ops(self.wasm_mod.main_body@),
        }
    }
}

impl Compiler {
    /// The invariant of a compiler.
    pub closed spec fn wf(&self) -> bool {
        &&& self.sym_tbl.wf()
        &&& self.ident_pool.wf()
        &&& session_wf(self@)
        &&& session_valid(self@, HOST_FUNCTIONS as nat)
    }

    /// Whether error messages are to be in colour.
    pub closed spec fn colorized(&self) -> bool {
        self.colorize_errors
    }

    /// Creates a compiler. It has no rules yet and knows the module
    /// `string`.
    pub fn new() -> (c: Self)
        ensures
            c.wf(),
            !c.colorized(),
            c@.modules.len() == 1,
            c@.modules[0].name@ == "string"@,
            is_string_module(*c@.modules[0].symbols),
            c@.symbols == Map::<Seq<char>, TypeValue>::empty(),
            c@.pool.len() == 0,
            c@.rules.len() == 0,
            c@.patterns == 0,
            c@.warnings.len() == 0,
            c@.code.len() == 0,
    {
        let c = Compiler {
            colorize_errors: false,
            warnings: Vec::new(),
            rules: Vec::new(),
            patterns: Vec::new(),
            modules: builtin_modules(),
            ident_pool: IdentPool::new(),
            wasm_mod: ModuleBuilder::new(),
            sym_tbl: SymbolTable::new(),
        };
        proof {
            lemma_ops_empty();
            assert(c.wasm_mod.main_body@ =~= Seq::<Instr>::empty());
            assert(c@.symbols =~= Map::<Seq<char>, TypeValue>::empty());
            let t = *c@.modules[0].symbols;
            assert forall|name: Seq<char>| (#[trigger] t.get(name)).is_some() implies value_ok(
                t.get(name).unwrap(),
                HOST_FUNCTIONS as nat,
                0,
            ) by {
                assert(name == "length"@ || name == "to_int"@);
            }
            assert(modules_ok(c@.modules, HOST_FUNCTIONS as nat, 0));
        }
        c
    }

    /// Says whether error messages are to be in colour. They are not
    /// unless this is asked for. Nothing else depends on it.
    pub fn colorize_errors(self, b: bool) -> (c: Self)
        ensures
            c.colorized() == b,
            c@ == self@,
            c.wf() == self.wf(),
    {
        let mut c = self;
        c.colorize_errors = b;
        c
    }

    /// The warnings given so far.
    pub fn warnings(&self) -> (w: &Vec<Warning>)
        ensures
            w@ == self@.warnings,
    {
        &self.warnings
    }

    /// Ends the compilation and gives the rules in compiled form.
    ///
    /// The module with the code of the conditions is built and then
    /// compiled for this machine. The result is an error only where the
    /// module is not accepted there, which no rule can bring about; what
    /// it is for each outcome of that compilation, `finish` says.
    pub fn build(self) -> (r: Result<CompiledRules, Error>)
        requires
            self.wf(),
        ensures
            match r {
                Ok(compiled) => {
                    &&& compiled.wf()
                    &&& compiled.pool() == self@.pool
                    &&& rule_views(compiled.rule_list()) == self@.rules
                    &&& compiled.pattern_count() == self@.patterns
                    &&& compiled.host_functions().len() == HOST_FUNCTIONS
                    &&& compiled.strings() == strings_of(self@.code)
                    &&& compiled.binary() == module_bytes(
                        standard_imports(),
                        low(self@.code),
                        "main"@,
                    )
                },
                Err(err) => err == Error::InvalidCode,
            },
    {
        let functions = host_functions();
        // Finish the module that holds the code.
        let module = match self.wasm_mod.build(&functions) {
            Some(module) => module,
            None => {
                // The code of a compiler is valid.
                assert(false);
                return Err(Error::InvalidCode);
            },
        };
        // Compile it for this machine.
        let compiled_wasm_mod = compile_for_host(&module.wasm);
        proof {
            assert forall|i: int| 0 <= i < self.rules@.len() implies idents_in_pool(
                (#[trigger] self.rules@[i])@,
                self.ident_pool@.len(),
            ) by {
                assert(self@.rules[i] == self.rules@[i]@);
                assert(idents_in_pool(self@.rules[i], self@.pool.len()));
            }
        }
        finish(self.ident_pool, self.rules, self.patterns, functions, module, compiled_wasm_mod)
    }

    /// Ends the compilation and gives the module with the code of the
    /// conditions in binary form: the module that imports what the code
    /// asks of the host and exports as `main` the entry function, whose
    /// body is the code of the rules.
    ///
    /// The module can be inspected or disassembled with the usual tools.
    pub fn emit_wasm(self) -> (wasm: Vec<u8>)
        requires
            self.wf(),
        ensures
            wasm@ == module_bytes(standard_imports(), low(self@.code), "main"@),
    {
        let functions = host_functions();
        match self.wasm_mod.build(&functions) {
            Some(module) => module.wasm,
            None => {
                // The code of a compiler is valid.
                assert(false);
                Vec::new()
            },
        }
    }

    /// Processes the imports of a namespace: each module becomes a
    /// top-level symbol. A module that does not exist is an error.
    fn process_imports(&mut self, imports: &Vec<Import>) -> (r: Result<(), Error>)
        requires
            old(self).wf(),
        ensures
            match imports_step(old(self)@, imports@, imports@.len()) {
                Ok(s) => {
                    &&& r.is_ok()
                    &&& final(self)@ == s
                    &&& final(self).wf()
                    &&& final(self).colorized() == old(self).colorized()
                },
                Err(err) => r == Err::<(), Error>(err),
            },
    {
        let mut i: usize = 0;
        while i < imports.len()
            invariant
                0 <= i <= imports@.len(),
                self.wf(),
                self.colorized() == old(self).colorized(),
                imports_step(old(self)@, imports@, i as nat) == Ok::<Session, Error>(self@),
            decreases imports@.len() - i,
        {
            let import = &imports[i];
            let ghost before = self@;
            match lookup_module(&self.modules, import.module_name.as_str()) {
                Some(module) => {
                    let symbols = share(&module.symbols);
                    self.sym_tbl.insert(import.module_name.as_str(), TypeValue::Struct(symbols));
                    if imported_before(imports, i) {
                        self.warnings.push(
                            Warning::DuplicateImport {
                                module_name: import.module_name.clone(),
                                span: import.span,
                            },
                        );
                    }
                    proof {
                        assert(self@ == import_step(before, imports@, i as int).unwrap());
                        lemma_import_valid(before, imports@, i as int, HOST_FUNCTIONS as nat);
                    }
                },
                None => {
                    proof {
                        lemma_imports_error(old(self)@, imports@, (i + 1) as nat, imports@.len());
                    }
                    return Err(
                        Error::CompileError(
                            CompileError::UnknownModule {
                                module_name: import.module_name.clone(),
                                span: import.span,
                            },
                        ),
                    );
                },
            }
            i = i + 1;
        }
        Ok(())
    }

    /// Compiles the rules of a namespace in their order.
    fn add_rules(&mut self, rules: &Vec<Rule>) -> (r: Result<(), Error>)
        requires
            old(self).wf(),
        ensures
            match rules_step(old(self)@, rules@, rules@.len()) {
                Ok(s) => {
                    &&& r.is_ok()
                    &&& final(self)@ == s
                    &&& final(self).wf()
                    &&& final(self).colorized() == old(self).colorized()
                },
                Err(err) => r == Err::<(), Error>(err),
            },
    {
        let mut i: usize = 0;
        while i < rules.len()
            invariant
                0 <= i <= rules@.len(),
                self.wf(),
                self.colorized() == old(self).colorized(),
                rules_step(old(self)@, rules@, i as nat) == Ok::<Session, Error>(self@),
            decreases rules@.len() - i,
        {
            match self.add_rule(&rules[i]) {
                Ok(()) => {},
                Err(err) => {
                    proof {
                        lemma_rules_error(old(self)@, rules@, (i + 1) as nat, rules@.len());
                    }
                    return Err(err);
                },
            }
            i = i + 1;
        }
        Ok(())
    }

    /// Compiles a namespace: its imports, then its rules.
    fn add_namespace(&mut self, ns: &Namespace) -> (r: Result<(), Error>)
        requires
            old(self).wf(),
        ensures
            match namespace_step(old(self)@, *ns) {
                Ok(s) => {
                    &&& r.is_ok()
                    &&& final(self)@ == s
                    &&& final(self).wf()
                    &&& final(self).colorized() == old(self).colorized()
                },
                Err(err) => r == Err::<(), Error>(err),
            },
    {
        // Check that every imported module exists.
        match self.process_imports(&ns.imports) {
            Ok(()) => {},
            Err(err) => {
                return Err(err);
            },
        }
        self.add_rules(&ns.rules)
    }

    /// Adds a source text to the rules that are compiled. It can be
    /// called any number of times.
    ///
    /// The namespaces of the text are compiled in their order, in each
    /// its imports and then its rules. The compiler is returned with all
    /// rules of the text added, or the first error is returned and the
    /// compiler is gone.
    pub fn add_source(self, ast: Ast) -> (r: Result<Self, Error>)
        requires
            self.wf(),
        ensures
            match source_step(self@, ast) {
                Ok(s) => r matches Ok(c) && c@ == s && c.wf() && c.colorized() == self.colorized(),
                Err(err) => r matches Err(e) && e == err,
            },
    {
        let mut c = self;
        let Ast { namespaces, warnings } = ast;
        // Take over the warnings of the parser.
        let mut warnings = warnings;
        c.warnings.append(&mut warnings);
        let ghost start = c@;
        proof {
            assert(start == (Session { warnings: self@.warnings + ast.warnings@, ..self@ }));
        }
        let mut i: usize = 0;
        while i < namespaces.len()
            invariant
                0 <= i <= namespaces@.len(),
                c.wf(),
                c.colorized() == self.colorized(),
                source_step(self@, ast) == namespaces_step(start, namespaces@, namespaces@.len()),
                namespaces_step(start, namespaces@, i as nat) == Ok::<Session, Error>(c@),
            decreases namespaces@.len() - i,
        {
            match c.add_namespace(&namespaces[i]) {
                Ok(()) => {},
                Err(err) => {
                    proof {
                        lemma_namespaces_error(
                            start,
                            namespaces@,
                            (i + 1) as nat,
                            namespaces@.len(),
                        );
                    }
                    return Err(err);
                },
            }
            i = i + 1;
        }
        Ok(c)
    }

    /// Registers the patterns of a rule under the next numbers and
    /// interns their identifiers.
    fn register_patterns(&mut self, decls: &Vec<PatternDecl>) -> (pairs: Vec<(IdentId, PatternId)>)
        requires
            old(self).wf(),
            old(self)@.rules.len() < MAX_COUNT,
            old(self)@.patterns + decls@.len() <= MAX_COUNT,
        ensures
            final(self)@ == (Session {
                pool: pool_with(old(self)@.pool, decls@, decls@.len()),
                patterns: (old(self)@.patterns + decls@.len()) as nat,
                ..old(self)@
            }),
            pairs@ == pattern_pairs(old(self)@.pool, old(self)@.patterns, decls@, decls@.len()),
            final(self).sym_tbl.wf(),
            final(self).ident_pool.wf(),
            final(self).colorized() == old(self).colorized(),
            final(self)@.pool.len() <= old(self)@.pool.len() + decls@.len(),
            final(self)@.pool.len() >= old(self)@.pool.len(),
            forall|j: int| 0 <= j < pairs@.len() ==> (#[trigger] pairs@[j]).0 < final(self)@.pool.len(),
    {
        let mut pairs: Vec<(IdentId, PatternId)> = Vec::new();
        let ghost pool0 = self@.pool;
        let ghost first = self@.patterns;
        let mut i: usize = 0;
        while i < decls.len()
            invariant
                0 <= i <= decls@.len(),
                first + decls@.len() <= MAX_COUNT,
                self@.rules.len() < MAX_COUNT,
                self@ == (Session {
                    pool: pool_with(pool0, decls@, i as nat),
                    patterns: (first + i) as nat,
                    ..old(self)@
                }),
                pool0 == old(self)@.pool,
                first == old(self)@.patterns,
                pairs@ == pattern_pairs(pool0, first, decls@, i as nat),
                self.sym_tbl.wf(),
                self.ident_pool.wf(),
                self.colorized() == old(self).colorized(),
                pool0.len() <= self@.pool.len() <= pool0.len() + i,
                pool0.len() <= old(self)@.rules.len() + first,
                forall|j: int| 0 <= j < pairs@.len() ==> (#[trigger] pairs@[j]).0 < self@.pool.len(),
            decreases decls@.len() - i,
        {
            let ident_id = self.ident_pool.intern(decls[i].identifier.as_str());
            let pattern_id = self.patterns.len() as PatternId;
            self.patterns.push(Pattern {  });
            pairs.push((ident_id, pattern_id));
            i = i + 1;
        }
        pairs
    }

    /// Compiles one rule: registers its patterns and the rule itself,
    /// checks its condition and generates the code of the condition.
    fn add_rule(&mut self, rule: &Rule) -> (r: Result<(), Error>)
        requires
            old(self).wf(),
        ensures
            match rule_step(old(self)@, *rule) {
                Ok(s) => {
                    &&& r.is_ok()
                    &&& final(self)@ == s
                    &&& final(self).wf()
                    &&& final(self).colorized() == old(self).colorized()
                },
                Err(err) => r == Err::<(), Error>(err),
            },
    {
        let ghost s0 = self@;
        let ghost env = rule_env(s0, *rule);
        let count = match &rule.patterns {
            Some(decls) => decls.len(),
            None => 0,
        };
        if self.rules.len() >= MAX_COUNT || count > MAX_COUNT - self.patterns.len() {
            return Err(Error::TooManyRules);
        }
        // The patterns of the rule, each with the handle of its identifier
        // and with its number.
        let pairs = match &rule.patterns {
            Some(decls) => self.register_patterns(decls),
            None => Vec::new(),
        };
        proof {
            assert(pairs@ =~= env.patterns);
        }
        let rule_id = self.rules.len() as RuleId;
        let ident = self.ident_pool.intern(rule.identifier.as_str());
        let ghost rules0 = self.rules@;
        self.rules.push(CompiledRule { ident, patterns: pairs });
        proof {
            assert(rule_views(self.rules@) =~= rule_views(rules0).push(
                RuleView { ident, patterns: env.patterns },
            ));
        }
        let n = self.rules.len();
        match compile_condition(
            &self.sym_tbl,
            &self.ident_pool,
            &self.rules[n - 1],
            &mut self.wasm_mod.main_body,
            &mut self.warnings,
            &rule.condition,
            rule_id,
        ) {
            Ok(()) => {
                proof {
                    let s = rule_step(s0, *rule).unwrap();
                    assert(self@.warnings =~= s.warnings);
                    assert(self@ == s);
                    lemma_rule_valid(s0, *rule, HOST_FUNCTIONS as nat);
                    assert forall|i: int| 0 <= i < self@.rules.len() implies idents_in_pool(
                        #[trigger] self@.rules[i],
                        self@.pool.len(),
                    ) by {
                        if i < s0.rules.len() {
                            assert(idents_in_pool(s0.rules[i], s0.pool.len()));
                        }
                    }
                }
                Ok(())
            },
            Err(err) => Err(Error::CompileError(err)),
        }
    }
}

/// Checks the condition of a rule and generates its code. The condition
/// may be a boolean, an integer, a floating-point number or a string;
/// where it is no boolean it is taken as one, with a warning.
fn compile_condition(
    sym_tbl: &SymbolTable,
    ident_pool: &IdentPool,
    rule: &CompiledRule,
    code: &mut Vec<Instr>,
    warnings: &mut Vec<Warning>,
    condition: &Expr,
    rule_id: RuleId,
) -> (r: Result<(), CompileError>)
    requires
        idents_in_pool(rule@, ident_pool@.len()),
    ensures
        ({
            let env = Env {
                root: sym_tbl.as_map(),
                scope: None,
                pool: ident_pool@,
                patterns: rule.patterns@,
            };
            match check(env, TypeSet::scalars_spec(), *condition) {
                Ok(ty) => {
                    &&& r.is_ok()
                    &&& ops(final(code)@) == ops(old(code)@) + rule_code(
                        env,
                        *condition,
                        rule_id,
                    )
                    &&& final(warnings)@ == (if ty == Type::Bool {
                        old(warnings)@
                    } else {
                        old(warnings)@.push(
                            Warning::NonBooleanAsBoolean { ty, span: condition.span_spec() },
                        )
                    })
                },
                Err(err) => r == Err::<(), CompileError>(err),
            }
        }),
{
    let mut ctx = Context {
        root_sym_tbl: sym_tbl,
        current_struct: None,
        ident_pool,
        current_rule: rule,
        warnings: Vec::new(),
        exception_handler_stack: Vec::new(),
        raise_emitted: false,
    };
    proof {
        assert(ctx.current_rule.ident < ctx.ident_pool@.len());
        assert forall|i: int| 0 <= i < ctx.current_rule.patterns@.len() implies (
        #[trigger] ctx.current_rule.patterns@[i]).0 < ctx.ident_pool@.len() by {
            assert(rule@.patterns[i].0 < ident_pool@.len());
        }
    }
    // The condition can be a boolean, an integer, a floating-point number
    // or a string.
    let ty = match semcheck(&ctx, TypeSet::scalars(), condition) {
        Ok(ty) => ty,
        Err(err) => {
            return Err(err);
        },
    };
    // If it is no boolean, it is taken as one: warn about it.
    warning_if_not_boolean(&mut ctx, ty, condition.span());
    emit_rule(&mut ctx, code, condition, rule_id);
    let mut given = ctx.warnings;
    let ghost before = warnings@;
    warnings.append(&mut given);
    proof {
        if ty == Type::Bool {
            assert(warnings@ =~= before);
        } else {
            assert(warnings@ =~= before.push(
                Warning::NonBooleanAsBoolean { ty, span: condition.span_spec() },
            ));
        }
    }
    Ok(())
}

impl Default for Compiler {
    fn default() -> (c: Self)
        ensures
            c.wf(),
            !c.colorized(),
            c@.rules.len() == 0,
            c@.patterns == 0,
            c@.pool.len() == 0,
            c@.warnings.len() == 0,
            c@.code.len() == 0,
    {
        Self::new()
    }
}

#[verifier::external_type_specification]
#[verifier::external_body]
pub struct ExNativeModule(wasmtime::Module);

/// `wasmtime::Module::from_binary` with an engine of the default
/// configuration (`wasmtime::Engine::new`): the module compiled for this
/// machine, or `None` where the engine cannot be had or does not accept
/// the module. What comes back depends on the machine.
#[verifier::external_body]
fn compile_for_host(wasm: &Vec<u8>) -> Option<wasmtime::Module> {
    let engine = wasmtime::Engine::new(&wasmtime::Config::new()).ok()?;
    wasmtime::Module::from_binary(&engine, wasm).ok()
}

/// A set of rules in compiled form: all that is needed to scan data with
/// them.
pub struct CompiledRules {
    /// The pool of the identifiers of rules and patterns.
    ident_pool: IdentPool,
    /// The module with the code of all conditions, in binary form.
    wasm: Vec<u8>,
    /// The same module, compiled for this machine.
    compiled_wasm_mod: wasmtime::Module,
    /// The rules. The number of a rule is its place here.
    rules: Vec<CompiledRule>,
    /// The patterns of all rules. The number of a pattern is its place
    /// here.
    patterns: Vec<Pattern>,
    /// The strings of the code. The code knows a string by the number of
    /// its place here.
    strings: Vec<Vec<u8>>,
    /// The functions that the module imports for the modules, after the
    /// five that every module imports.
    functions: Vec<HostFunction>,
}

impl CompiledRules {
    /// The identifier pool.
    pub closed spec fn pool(&self) -> Seq<Seq<char>> {
        self.ident_pool@
    }

    /// The rules.
    pub closed spec fn rule_list(&self) -> Seq<CompiledRule> {
        self.rules@
    }

    /// The number of patterns.
    pub closed spec fn pattern_count(&self) -> nat {
        self.patterns@.len()
    }

    /// The module with the code of the conditions, in binary form.
    pub closed spec fn binary(&self) -> Seq<u8> {
        self.wasm@
    }

    /// The module with the code of the conditions, compiled for this
    /// machine.
    pub closed spec fn native(&self) -> wasmtime::Module {
        self.compiled_wasm_mod
    }

    /// The strings of the code.
    pub closed spec fn strings(&self) -> Seq<Seq<u8>> {
        texts(self.strings@)
    }

    /// The functions that the module imports for the modules.
    pub closed spec fn host_functions(&self) -> Seq<HostFunction> {
        self.functions@
    }

    /// Every identifier of a rule is in the pool.
    pub closed spec fn wf(&self) -> bool {
        &&& self.ident_pool.wf()
        &&& forall|i: int|
            0 <= i < self.rules@.len() ==> idents_in_pool(
                (#[trigger] self.rules@[i])@,
                self.ident_pool@.len(),
            )
    }

    /// The compiled rules. The number of a rule is its place among them.
    pub fn rules(&self) -> (r: &[CompiledRule])
        ensures
            r@ == self.rule_list(),
    {
        self.rules.as_slice()
    }

    /// The module with the code of the conditions, compiled for this
    /// machine.
    pub fn compiled_wasm_mod(&self) -> (r: &wasmtime::Module)
        ensures
            *r == self.native(),
    {
        &self.compiled_wasm_mod
    }

    /// The module with the code of the conditions, in binary form.
    pub fn wasm(&self) -> (r: &Vec<u8>)
        ensures
            r@ == self.binary(),
    {
        &self.wasm
    }

    /// The strings of the code. The code knows a string by the number of
    /// its place among them.
    pub fn string_table(&self) -> (r: &Vec<Vec<u8>>)
        ensures
            texts(r@) == self.strings(),
    {
        &self.strings
    }

    /// The functions that the module imports for the modules, in the
    /// order of their imports.
    pub fn imports(&self) -> (r: &Vec<HostFunction>)
        ensures
            r@ == self.host_functions(),
    {
        &self.functions
    }

    /// The identifier of the rule with the given number.
    pub fn rule_name(&self, rule_id: RuleId) -> (name: &str)
        requires
            self.wf(),
            0 <= rule_id < self.rule_list().len(),
        ensures
            name@ == self.pool()[self.rule_list()[rule_id as int].ident as int],
    {
        let rule = &self.rules[rule_id as usize];
        proof {
            assert(idents_in_pool(self.rules@[rule_id as int]@, self.ident_pool@.len()));
        }
        self.ident_pool.resolve(rule.ident)
    }
}

/// Puts the compiled rules together from the parts of a compiler and from
/// what the compilation of the module for this machine gave. Where it
/// gave nothing, the code of the compiler was at fault.
pub fn finish(
    ident_pool: IdentPool,
    rules: Vec<CompiledRule>,
    patterns: Vec<Pattern>,
    functions: Vec<HostFunction>,
    module: BinaryModule,
    compiled: Option<wasmtime::Module>,
) -> (r: Result<CompiledRules, Error>)
    ensures
        r.is_ok() == compiled.is_some(),
        match r {
            Ok(c) => {
                &&& c.pool() == ident_pool@
                &&& c.rule_list() == rules@
                &&& c.pattern_count() == patterns@.len()
                &&& c.strings() == texts(module.strings@)
                &&& c.binary() == module.wasm@
                &&& Some(c.native()) == compiled
                &&& c.host_functions() == functions@
                &&& c.wf() == (ident_pool.wf() && forall|i: int|
                    0 <= i < rules@.len() ==> idents_in_pool(
                        (#[trigger] rules@[i])@,
                        ident_pool@.len(),
                    ))
            },
            Err(err) => err == Error::InvalidCode,
        },
{
    match compiled {
        Some(compiled_wasm_mod) => Ok(
            CompiledRules {
                ident_pool,
                wasm: module.wasm,
                compiled_wasm_mod,
                rules,
                patterns,
                strings: module.strings,
                functions,
            },
        ),
        None => Err(Error::InvalidCode),
    }
}

/// `Rc::clone`: another reference to the same value.
#[verifier::external_body]
fn share(symbols: &Rc<SymbolTable>) -> (r: Rc<SymbolTable>)
    ensures
        r == *symbols,
{
    Rc::clone(symbols)
}

/// Whether one of the imports before the one at `i` imports the same
/// module.
fn imported_before(imports: &Vec<Import>, i: usize) -> (r: bool)
    requires
        i < imports@.len(),
    ensures
        r == is_duplicate(imports@, i as int),
{
    let mut j: usize = 0;
    while j < i
        invariant
            0 <= j <= i < imports@.len(),
            forall|k: int| 0 <= k < j ==> (#[trigger] imports@[k]).module_name@ != imports@[i as int].module_name@,
        decreases i - j,
    {
        if same_text(imports[j].module_name.as_str(), imports[i].module_name.as_str()) {
            return true;
        }
        j = j + 1;
    }
    false
}

/// An error among the first `n` rules is the error of all of them.
pub proof fn lemma_rules_error(s: Session, rules: Seq<Rule>, n: nat, m: nat)
    requires
        n <= m <= rules.len(),
        rules_step(s, rules, n) is Err,
    ensures
        rules_step(s, rules, m) == rules_step(s, rules, n),
    decreases m,
{
    if n < m {
        lemma_rules_error(s, rules, n, (m - 1) as nat);
    }
}

/// An error among the first `n` namespaces is the error of all of them.
pub proof fn lemma_namespaces_error(s: Session, namespaces: Seq<Namespace>, n: nat, m: nat)
    requires
        n <= m <= namespaces.len(),
        namespaces_step(s, namespaces, n) is Err,
    ensures
        namespaces_step(s, namespaces, m) == namespaces_step(s, namespaces, n),
    decreases m,
{
    if n < m {
        lemma_namespaces_error(s, namespaces, n, (m - 1) as nat);
    }
}

/// An error among the first `n` imports is the error of all of them.
pub proof fn lemma_imports_error(s: Session, imports: Seq<Import>, n: nat, m: nat)
    requires
        n <= m <= imports.len(),
        imports_step(s, imports, n) is Err,
    ensures
        imports_step(s, imports, m) == imports_step(s, imports, n),
    decreases m,
{
    if n < m {
        lemma_imports_error(s, imports, n, (m - 1) as nat);
    }
}

} // verus!
