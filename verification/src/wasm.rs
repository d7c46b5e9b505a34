//! The code that conditions are compiled to: structured instructions for a
//! stack machine, in which the only jumps are branches out of enclosing
//! blocks.
use vstd::prelude::*;
use crate::ast::CmpOp;
use crate::modules::HostFunction;

pub mod builder;
pub mod lower;

verus! {

/// The type of a value on the stack.
#[derive(Clone, Copy, Debug, PartialEq, Eq, Structural)]
pub enum ValType {
    I32,
    I64,
}

/// An instruction.
///
/// A branch names its target by depth: 0 is the innermost block or
/// conditional that encloses the branch, 1 the next one out. It leaves the
/// target, which then has the values that its type asks for.
#[derive(Debug, PartialEq, Eq)]
pub enum Instr {
    /// Pushes a 32-bit constant.
    I32Const(i32),
    /// Pushes a 64-bit constant.
    I64Const(i64),
    /// Pushes a string.
    StrConst(Vec<u8>),
    /// Replaces a 32-bit value by 1 if it is 0 and by 0 if it is not.
    I32Eqz,
    /// Replaces two 32-bit values by their product.
    I32Mul,
    /// Replaces two 64-bit values by their bitwise conjunction.
    I64And,
    /// Replaces two 64-bit values by 1 if the comparison holds of them as
    /// signed integers and by 0 if it does not.
    I64Cmp(CmpOp),
    /// Takes the 64 bits on the stack for the floating-point number that
    /// they encode.
    FloatFromBits,
    /// Replaces two floating-point numbers by 1 if the comparison holds
    /// of them and by 0 if it does not.
    FloatCmp(CmpOp),
    /// Replaces a string by its length.
    StrLen,
    /// Replaces two strings by 1 if they are the same, byte for byte, and
    /// by 0 if they are not.
    StrEq,
    /// Replaces the number of a pattern by 1 if the pattern matched and
    /// by 0 if it did not.
    PatMatch,
    /// Replaces the number of a pattern by the offset of its first match
    /// and a flag, which is 1 if there is no such offset and 0 if there
    /// is one.
    PatOffset,
    /// Calls a function of the host with the topmost `nargs` values and
    /// replaces them by its result and a flag, which is 1 if the result is
    /// undefined and 0 if it is not.
    Call { func_id: u32, nargs: usize },
    /// Reports to the host that the rule whose number is on the stack
    /// matched.
    RuleMatch,
    /// A block, which leaves the values of its type.
    Block { ty: Option<ValType>, body: Vec<Instr> },
    /// A conditional: takes a 32-bit value and runs the first branch if
    /// it is not 0 and the second if it is.
    IfElse { ty: Option<ValType>, consequent: Vec<Instr>, alternative: Vec<Instr> },
    /// Branches.
    Br(u32),
    /// Takes a 32-bit value and branches if it is not 0.
    BrIf(u32),
    /// Takes a 32-bit value and branches to the target at that place in
    /// the table, or to the default target where the table has no such
    /// place.
    BrTable { targets: Vec<u32>, default: u32 },
}

/// An instruction as a mathematical value.
pub ghost enum Op {
    I32Const(int),
    I64Const(int),
    StrConst(Seq<u8>),
    I32Eqz,
    I32Mul,
    I64And,
    I64Cmp(CmpOp),
    FloatFromBits,
    FloatCmp(CmpOp),
    StrLen,
    StrEq,
    PatMatch,
    PatOffset,
    Call { func_id: int, nargs: nat },
    RuleMatch,
    Block { ty: Option<ValType>, body: Seq<Op> },
    IfElse { ty: Option<ValType>, consequent: Seq<Op>, alternative: Seq<Op> },
    Br(nat),
    BrIf(nat),
    BrTable { targets: Seq<nat>, default: nat },
}

/// The targets of a table of branches as mathematical values.
pub open spec fn depths(targets: Seq<u32>) -> Seq<nat> {
    Seq::new(targets.len(), |i: int| targets[i] as nat)
}

/// An instruction as a mathematical value.
pub open spec fn op_of(instr: Instr) -> Op
    decreases instr, 0nat,
{
    match instr {
        Instr::I32Const(v) => Op::I32Const(v as int),
        Instr::I64Const(v) => Op::I64Const(v as int),
        Instr::StrConst(s) => Op::StrConst(s@),
        Instr::I32Eqz => Op::I32Eqz,
        Instr::I32Mul => Op::I32Mul,
        Instr::I64And => Op::I64And,
        Instr::I64Cmp(op) => Op::I64Cmp(op),
        Instr::FloatFromBits => Op::FloatFromBits,
        Instr::FloatCmp(op) => Op::FloatCmp(op),
        Instr::StrLen => Op::StrLen,
        Instr::StrEq => Op::StrEq,
        Instr::PatMatch => Op::PatMatch,
        Instr::PatOffset => Op::PatOffset,
        Instr::Call { func_id, nargs } => Op::Call { func_id: func_id as int, nargs: nargs as nat },
        Instr::RuleMatch => Op::RuleMatch,
        Instr::Block { ty, body } => Op::Block { ty, body: ops_upto(body@, body@.len()) },
        Instr::IfElse { ty, consequent, alternative } => Op::IfElse {
            ty,
            consequent: ops_upto(consequent@, consequent@.len()),
            alternative: ops_upto(alternative@, alternative@.len()),
        },
        Instr::Br(depth) => Op::Br(depth as nat),
        Instr::BrIf(depth) => Op::BrIf(depth as nat),
        Instr::BrTable { targets, default } => Op::BrTable {
            targets: depths(targets@),
            default: default as nat,
        },
    }
}

/// The first `n` instructions of `code` as mathematical values.
pub open spec fn ops_upto(code: Seq<Instr>, n: nat) -> Seq<Op>
    decreases code, n,
{
    if n == 0 || n > code.len() {
        Seq::empty()
    } else {
        ops_upto(code, (n - 1) as nat).push(op_of(code[n - 1]))
    }
}

/// A sequence of instructions as mathematical values.
pub open spec fn ops(code: Seq<Instr>) -> Seq<Op> {
    ops_upto(code, code.len())
}

/// The values of the first `n` instructions, one by one.
pub proof fn lemma_ops_upto(code: Seq<Instr>, n: nat)
    requires
        n <= code.len(),
    ensures
        ops_upto(code, n).len() == n,
        forall|i: int| 0 <= i < n ==> #[trigger] ops_upto(code, n)[i] == op_of(code[i]),
    decreases n,
{
    if n > 0 {
        lemma_ops_upto(code, (n - 1) as nat);
    }
}

/// The values of a sequence of instructions, one by one.
pub proof fn lemma_ops(code: Seq<Instr>)
    ensures
        ops(code).len() == code.len(),
        forall|i: int| 0 <= i < code.len() ==> #[trigger] ops(code)[i] == op_of(code[i]),
{
    lemma_ops_upto(code, code.len());
}

/// Appending an instruction appends its value.
pub proof fn lemma_ops_push(code: Seq<Instr>, instr: Instr)
    ensures
        ops(code.push(instr)) == ops(code).push(op_of(instr)),
{
    lemma_ops(code);
    lemma_ops(code.push(instr));
    assert(ops(code.push(instr)) =~= ops(code).push(op_of(instr)));
}

/// The values of a concatenation are the concatenation of the values.
pub proof fn lemma_ops_concat(a: Seq<Instr>, b: Seq<Instr>)
    ensures
        ops(a + b) == ops(a) + ops(b),
{
    lemma_ops(a);
    lemma_ops(b);
    lemma_ops(a + b);
    assert(ops(a + b) =~= ops(a) + ops(b));
}

/// No instructions, no values.
pub proof fn lemma_ops_empty()
    ensures
        ops(Seq::<Instr>::empty()) == Seq::<Op>::empty(),
{
}

/// The builder of the module that holds the code of all conditions. Its
/// entry function runs the code of the rules one after the other.
pub struct ModuleBuilder {
    /// The code of the entry function.
    pub main_body: Vec<Instr>,
}

impl ModuleBuilder {
    /// A builder whose entry function is empty.
    pub fn new() -> (b: Self)
        ensures
            b.main_body@.len() == 0,
    {
        ModuleBuilder { main_body: Vec::new() }
    }

    /// Ends the construction and gives the module in binary form. It
    /// imports the given functions for the modules and exports the entry
    /// function as `main`. There is no module where the code is not valid.
    pub fn build(self, functions: &Vec<HostFunction>) -> (r: Option<lower::BinaryModule>)
        ensures
            r.is_some() == (functions@.len() <= usize::MAX - lower::FIRST_FUNCTION && lower::valid(
                ops(self.main_body@),
                0,
                functions@.len(),
            )),
            r.is_some() ==> lower::texts(r.unwrap().strings@) == lower::strings_of(
                ops(self.main_body@),
            ),
            r.is_some() ==> r.unwrap().wasm@ == builder::module_bytes(
                lower::imports_for(functions@),
                lower::low(ops(self.main_body@)),
                "main"@,
            ),
    {
        lower::assemble(&self.main_body, functions)
    }
}

} // verus!
