//! The module under construction, held by `walrus`. What the verifier
//! knows of it is what the functions of this file state.
use vstd::prelude::*;
use walrus::ir::{BinaryOp, Block, BrTable, IfElse, InstrSeqId, UnaryOp};
use walrus::{FunctionBuilder, FunctionId};
use crate::ast::CmpOp;
use crate::wasm::ValType;

verus! {

/// A `walrus::Module` with the `walrus::FunctionBuilder` of its entry
/// function, which has no parameters and no results.
///
/// The instruction sequences of the function and the functions that the
/// module imports are known by numbers, in the order in which they were
/// made; sequence 0 is the body of the entry function.
#[verifier::external_body]
pub struct Assembler {
    module: walrus::Module,
    builder: FunctionBuilder,
    seqs: Vec<InstrSeqId>,
    funcs: Vec<FunctionId>,
}

/// An instruction that neither branches nor holds other instructions.
pub ghost enum Plain {
    I32Const(int),
    I64Const(int),
    I32Eqz,
    I32Mul,
    I64And,
    /// The comparison of two 64-bit integers as signed numbers.
    I64Compare(CmpOp),
    FloatFromBits,
    /// The comparison of two 64-bit floating-point numbers.
    FloatCompare(CmpOp),
    /// The call of the imported function with the given number.
    Call(int),
}

/// An instruction as an assembler holds it. A branch names the sequence
/// whose block it leaves, and a block or a conditional names the
/// sequences that it was made of.
pub ghost enum Item {
    Plain(Plain),
    Br(int),
    BrIf(int),
    BrTable { targets: Seq<int>, default: int },
    Block { seq: int, ty: Option<ValType>, body: Seq<Item> },
    IfElse {
        consequent: int,
        alternative: int,
        ty: Option<ValType>,
        else_ty: Option<ValType>,
        first: Seq<Item>,
        second: Seq<Item>,
    },
}

/// An instruction as a module holds it in binary form. A branch names the
/// block that it leaves by depth: 0 is the innermost block or conditional
/// that encloses the branch.
pub ghost enum Wasm {
    Plain(Plain),
    Br(int),
    BrIf(int),
    BrTable { targets: Seq<int>, default: int },
    Block { ty: Option<ValType>, body: Seq<Wasm> },
    IfElse {
        ty: Option<ValType>,
        else_ty: Option<ValType>,
        first: Seq<Wasm>,
        second: Seq<Wasm>,
    },
}

/// A sequence of instructions: the type of the value that its block
/// leaves, if it leaves one, and its instructions.
pub ghost struct Sequence {
    pub ty: Option<ValType>,
    pub items: Seq<Item>,
}

/// A function that a module imports.
pub ghost struct Import {
    pub namespace: Seq<char>,
    pub name: Seq<char>,
    pub params: Seq<ValType>,
    pub results: Seq<ValType>,
}

/// The sequences that are not yet part of another sequence, each with
/// the blocks that its branches leave: what must come to enclose it, but
/// for the sequence itself.
pub uninterp spec fn sequences(a: Assembler) -> Map<int, Set<int>>;

/// What the sequences hold that are not yet part of another sequence.
pub uninterp spec fn contents(a: Assembler) -> Map<int, Sequence>;

/// The functions that the module imports, each at the place that is its
/// number.
pub uninterp spec fn imported(a: Assembler) -> Seq<Import>;

/// The module in binary form that imports the given functions and exports
/// under the given name a function without parameters and results whose
/// body is the given code.
pub uninterp spec fn module_bytes(imports: Seq<Import>, body: Seq<Wasm>, entry_name: Seq<char>) -> Seq<u8>;

/// The sequences of a function whose body is empty and is its only
/// sequence.
pub open spec fn empty_function() -> Map<int, Set<int>> {
    Map::<int, Set<int>>::empty().insert(0, Set::<int>::empty())
}

/// A sequence without instructions.
pub open spec fn empty_sequence(ty: Option<ValType>) -> Sequence {
    Sequence { ty, items: Seq::empty() }
}

/// What the sequences of a function hold whose body is empty and is its
/// only sequence.
pub open spec fn empty_contents() -> Map<int, Sequence> {
    Map::<int, Sequence>::empty().insert(0, empty_sequence(None))
}

/// What the sequences hold after `item` was added to the sequence `seq`.
pub open spec fn with_item(m: Map<int, Sequence>, seq: int, item: Item) -> Map<int, Sequence> {
    m.insert(seq, Sequence { ty: m[seq].ty, items: m[seq].items.push(item) })
}

/// The import with the given names and types.
pub open spec fn import_of(
    namespace: Seq<char>,
    name: Seq<char>,
    params: Seq<ValType>,
    results: Seq<ValType>,
) -> Import {
    Import { namespace, name, params, results }
}

/// The numbers in `targets`, in their order.
pub open spec fn ints(targets: Seq<usize>) -> Seq<int> {
    Seq::new(targets.len(), |i: int| targets[i] as int)
}

/// The numbers in `targets`.
pub open spec fn numbers(targets: Seq<usize>) -> Set<int> {
    Set::new(|t: int| exists|i: int| 0 <= i < targets.len() && #[trigger] targets[i] == t)
}

/// The table of branches to the given sequences.
pub open spec fn table_item(targets: Seq<usize>, default: usize) -> Item {
    Item::BrTable { targets: ints(targets), default: default as int }
}

/// The block that the sequence `seq` makes, which holds `s`.
pub open spec fn block_item(seq: int, s: Sequence) -> Item {
    Item::Block { seq, ty: s.ty, body: s.items }
}

/// The conditional that the sequences `consequent` and `alternative`
/// make, which hold `first` and `second`.
pub open spec fn if_else_item(consequent: int, alternative: int, first: Sequence, second: Sequence) -> Item {
    Item::IfElse {
        consequent,
        alternative,
        ty: first.ty,
        else_ty: second.ty,
        first: first.items,
        second: second.items,
    }
}

/// The depth by which a branch names the block of the sequence `target`
/// among the blocks of `enclosing`, outermost first: the number of blocks
/// inside the innermost block of that sequence.
pub open spec fn depth_of(enclosing: Seq<int>, target: int) -> int
    decreases enclosing.len(),
{
    if enclosing.len() == 0 || enclosing.last() == target {
        0
    } else {
        1 + depth_of(enclosing.drop_last(), target)
    }
}

/// The depths by which a table of branches names its targets.
pub open spec fn depths_of(enclosing: Seq<int>, targets: Seq<int>) -> Seq<int> {
    Seq::new(targets.len(), |i: int| depth_of(enclosing, targets[i]))
}

/// The instruction as the binary form holds it, where the blocks of
/// `enclosing` enclose it.
pub open spec fn relative_item(item: Item, enclosing: Seq<int>) -> Wasm
    decreases item, 0nat,
{
    match item {
        Item::Plain(p) => Wasm::Plain(p),
        Item::Br(target) => Wasm::Br(depth_of(enclosing, target)),
        Item::BrIf(target) => Wasm::BrIf(depth_of(enclosing, target)),
        Item::BrTable { targets, default } => Wasm::BrTable {
            targets: depths_of(enclosing, targets),
            default: depth_of(enclosing, default),
        },
        Item::Block { seq, ty, body } => Wasm::Block {
            ty,
            body: relative_upto(body, body.len(), enclosing.push(seq)),
        },
        Item::IfElse { consequent, alternative, ty, else_ty, first, second } => Wasm::IfElse {
            ty,
            else_ty,
            first: relative_upto(first, first.len(), enclosing.push(consequent)),
            second: relative_upto(second, second.len(), enclosing.push(alternative)),
        },
    }
}

/// The first `n` of the instructions as the binary form holds them.
pub open spec fn relative_upto(items: Seq<Item>, n: nat, enclosing: Seq<int>) -> Seq<Wasm>
    decreases items, n,
{
    if n == 0 || n > items.len() {
        Seq::empty()
    } else {
        relative_upto(items, (n - 1) as nat, enclosing).push(
            relative_item(items[n - 1], enclosing),
        )
    }
}

/// The instructions as the binary form holds them.
pub open spec fn relative(items: Seq<Item>, enclosing: Seq<int>) -> Seq<Wasm> {
    relative_upto(items, items.len(), enclosing)
}

/// `Module::default`, and `FunctionBuilder::new` for a function without
/// parameters and results with its `func_body_id`: a module that imports
/// nothing, and an entry function whose body is empty and is its only
/// sequence.
#[verifier::external_body]
pub(crate) fn assembler_new() -> (unit: Assembler)
    ensures
        sequences(unit) == empty_function(),
        contents(unit) == empty_contents(),
        imported(unit) == Seq::<Import>::empty(),
{
    let mut module = walrus::Module::default();
    let builder = FunctionBuilder::new(&mut module.types, &[], &[]);
    let entry = builder.func_body_id();
    Assembler { module, builder, seqs: vec![entry], funcs: Vec::new() }
}

/// `Module::add_import_func` with the type that `ModuleTypes::add` gives
/// for the parameters and results: the module imports one more function,
/// which the host provides under the given name in the given namespace.
#[verifier::external_body]
pub(crate) fn add_import(
    unit: &mut Assembler,
    namespace: &str,
    name: &str,
    params: &Vec<ValType>,
    results: &Vec<ValType>,
)
    ensures
        imported(*final(unit)) == imported(*old(unit)).push(
            import_of(namespace@, name@, params@, results@),
        ),
        sequences(*final(unit)) == sequences(*old(unit)),
        contents(*final(unit)) == contents(*old(unit)),
{
    let convert = |t: &ValType| match t {
        ValType::I32 => walrus::ValType::I32,
        ValType::I64 => walrus::ValType::I64,
    };
    let params: Vec<walrus::ValType> = params.iter().map(convert).collect();
    let results: Vec<walrus::ValType> = results.iter().map(convert).collect();
    let ty = unit.module.types.add(&params, &results);
    let f = unit.module.add_import_func(namespace, name, ty).0;
    unit.funcs.push(f);
}

/// `FunctionBuilder::dangling_instr_seq`: a new, empty sequence whose
/// block leaves a value of the given type, or none. The result is its
/// number.
#[verifier::external_body]
pub(crate) fn new_seq(unit: &mut Assembler, ty: Option<ValType>) -> (seq: usize)
    ensures
        !sequences(*old(unit)).contains_key(seq as int),
        sequences(*final(unit)) == sequences(*old(unit)).insert(seq as int, Set::<int>::empty()),
        contents(*final(unit)) == contents(*old(unit)).insert(seq as int, empty_sequence(ty)),
        imported(*final(unit)) == imported(*old(unit)),
{
    let ty = ty.map(|t| match t {
        ValType::I32 => walrus::ValType::I32,
        ValType::I64 => walrus::ValType::I64,
    });
    let seq = unit.seqs.len();
    unit.seqs.push(unit.builder.dangling_instr_seq(ty).id());
    seq
}

/// `InstrSeqBuilder::i32_const` on the sequence `seq`, which gets that instruction.
#[verifier::external_body]
pub(crate) fn i32_const(unit: &mut Assembler, seq: usize, value: i32)
    requires
        sequences(*old(unit)).contains_key(seq as int),
    ensures
        sequences(*final(unit)) == sequences(*old(unit)),
        contents(*final(unit)) == with_item(
            contents(*old(unit)),
            seq as int,
            Item::Plain(Plain::I32Const(value as int)),
        ),
        imported(*final(unit)) == imported(*old(unit)),
{
    unit.builder.instr_seq(unit.seqs[seq]).i32_const(value);
}

/// `InstrSeqBuilder::i64_const` on the sequence `seq`, which gets that instruction.
#[verifier::external_body]
pub(crate) fn i64_const(unit: &mut Assembler, seq: usize, value: i64)
    requires
        sequences(*old(unit)).contains_key(seq as int),
    ensures
        sequences(*final(unit)) == sequences(*old(unit)),
        contents(*final(unit)) == with_item(
            contents(*old(unit)),
            seq as int,
            Item::Plain(Plain::I64Const(value as int)),
        ),
        imported(*final(unit)) == imported(*old(unit)),
{
    unit.builder.instr_seq(unit.seqs[seq]).i64_const(value);
}

/// `InstrSeqBuilder::unop` with `I32Eqz` on the sequence `seq`, which gets that instruction.
#[verifier::external_body]
pub(crate) fn i32_eqz(unit: &mut Assembler, seq: usize)
    requires
        sequences(*old(unit)).contains_key(seq as int),
    ensures
        sequences(*final(unit)) == sequences(*old(unit)),
        contents(*final(unit)) == with_item(
            contents(*old(unit)),
            seq as int,
            Item::Plain(Plain::I32Eqz),
        ),
        imported(*final(unit)) == imported(*old(unit)),
{
    unit.builder.instr_seq(unit.seqs[seq]).unop(UnaryOp::I32Eqz);
}

/// `InstrSeqBuilder::binop` with `I32Mul` on the sequence `seq`, which gets that instruction.
#[verifier::external_body]
pub(crate) fn i32_mul(unit: &mut Assembler, seq: usize)
    requires
        sequences(*old(unit)).contains_key(seq as int),
    ensures
        sequences(*final(unit)) == sequences(*old(unit)),
        contents(*final(unit)) == with_item(
            contents(*old(unit)),
            seq as int,
            Item::Plain(Plain::I32Mul),
        ),
        imported(*final(unit)) == imported(*old(unit)),
{
    unit.builder.instr_seq(unit.seqs[seq]).binop(BinaryOp::I32Mul);
}

/// `InstrSeqBuilder::binop` with `I64And` on the sequence `seq`, which gets that instruction.
#[verifier::external_body]
pub(crate) fn i64_and(unit: &mut Assembler, seq: usize)
    requires
        sequences(*old(unit)).contains_key(seq as int),
    ensures
        sequences(*final(unit)) == sequences(*old(unit)),
        contents(*final(unit)) == with_item(
            contents(*old(unit)),
            seq as int,
            Item::Plain(Plain::I64And),
        ),
        imported(*final(unit)) == imported(*old(unit)),
{
    unit.builder.instr_seq(unit.seqs[seq]).binop(BinaryOp::I64And);
}

/// `InstrSeqBuilder::unop` with `F64ReinterpretI64` on the sequence `seq`, which gets that instruction.
#[verifier::external_body]
pub(crate) fn float_from_bits(unit: &mut Assembler, seq: usize)
    requires
        sequences(*old(unit)).contains_key(seq as int),
    ensures
        sequences(*final(unit)) == sequences(*old(unit)),
        contents(*final(unit)) == with_item(
            contents(*old(unit)),
            seq as int,
            Item::Plain(Plain::FloatFromBits),
        ),
        imported(*final(unit)) == imported(*old(unit)),
{
    unit.builder.instr_seq(unit.seqs[seq]).unop(UnaryOp::F64ReinterpretI64);
}

/// `InstrSeqBuilder::binop` with the signed 64-bit comparison for `op` on
/// the sequence `seq`, which gets that instruction.
#[verifier::external_body]
pub(crate) fn i64_compare(unit: &mut Assembler, seq: usize, op: CmpOp)
    requires
        sequences(*old(unit)).contains_key(seq as int),
    ensures
        sequences(*final(unit)) == sequences(*old(unit)),
        contents(*final(unit)) == with_item(
            contents(*old(unit)),
            seq as int,
            Item::Plain(Plain::I64Compare(op)),
        ),
        imported(*final(unit)) == imported(*old(unit)),
{
    let op = match op {
        CmpOp::Eq => BinaryOp::I64Eq,
        CmpOp::Ne => BinaryOp::I64Ne,
        CmpOp::Lt => BinaryOp::I64LtS,
        CmpOp::Gt => BinaryOp::I64GtS,
        CmpOp::Le => BinaryOp::I64LeS,
        CmpOp::Ge => BinaryOp::I64GeS,
    };
    unit.builder.instr_seq(unit.seqs[seq]).binop(op);
}

/// `InstrSeqBuilder::binop` with the comparison of 64-bit floating-point
/// numbers for `op` on the sequence `seq`, which gets that instruction.
#[verifier::external_body]
pub(crate) fn float_compare(unit: &mut Assembler, seq: usize, op: CmpOp)
    requires
        sequences(*old(unit)).contains_key(seq as int),
    ensures
        sequences(*final(unit)) == sequences(*old(unit)),
        contents(*final(unit)) == with_item(
            contents(*old(unit)),
            seq as int,
            Item::Plain(Plain::FloatCompare(op)),
        ),
        imported(*final(unit)) == imported(*old(unit)),
{
    let op = match op {
        CmpOp::Eq => BinaryOp::F64Eq,
        CmpOp::Ne => BinaryOp::F64Ne,
        CmpOp::Lt => BinaryOp::F64Lt,
        CmpOp::Gt => BinaryOp::F64Gt,
        CmpOp::Le => BinaryOp::F64Le,
        CmpOp::Ge => BinaryOp::F64Ge,
    };
    unit.builder.instr_seq(unit.seqs[seq]).binop(op);
}

/// `InstrSeqBuilder::call` on the sequence `seq`, which gets a call of
/// the imported function with the number `callee`.
#[verifier::external_body]
pub(crate) fn call(unit: &mut Assembler, seq: usize, callee: usize)
    requires
        sequences(*old(unit)).contains_key(seq as int),
        callee < imported(*old(unit)).len(),
    ensures
        sequences(*final(unit)) == sequences(*old(unit)),
        contents(*final(unit)) == with_item(
            contents(*old(unit)),
            seq as int,
            Item::Plain(Plain::Call(callee as int)),
        ),
        imported(*final(unit)) == imported(*old(unit)),
{
    unit.builder.instr_seq(unit.seqs[seq]).call(unit.funcs[callee]);
}

/// `InstrSeqBuilder::br` on the sequence `seq`, which gets a branch that
/// leaves the block of the sequence `target`.
#[verifier::external_body]
pub(crate) fn br(unit: &mut Assembler, seq: usize, target: usize)
    requires
        sequences(*old(unit)).contains_key(seq as int),
        sequences(*old(unit)).contains_key(target as int),
    ensures
        sequences(*final(unit)) == sequences(*old(unit)).insert(
            seq as int,
            sequences(*old(unit))[seq as int].insert(target as int),
        ),
        contents(*final(unit)) == with_item(contents(*old(unit)), seq as int, Item::Br(target as int)),
        imported(*final(unit)) == imported(*old(unit)),
{
    unit.builder.instr_seq(unit.seqs[seq]).br(unit.seqs[target]);
}

/// `InstrSeqBuilder::br_if` on the sequence `seq`, which gets a
/// conditional branch that leaves the block of the sequence `target`.
#[verifier::external_body]
pub(crate) fn br_if(unit: &mut Assembler, seq: usize, target: usize)
    requires
        sequences(*old(unit)).contains_key(seq as int),
        sequences(*old(unit)).contains_key(target as int),
    ensures
        sequences(*final(unit)) == sequences(*old(unit)).insert(
            seq as int,
            sequences(*old(unit))[seq as int].insert(target as int),
        ),
        contents(*final(unit)) == with_item(
            contents(*old(unit)),
            seq as int,
            Item::BrIf(target as int),
        ),
        imported(*final(unit)) == imported(*old(unit)),
{
    unit.builder.instr_seq(unit.seqs[seq]).br_if(unit.seqs[target]);
}

/// `InstrSeqBuilder::instr` with a `BrTable` on the sequence `seq`, which
/// gets a branch that leaves the block of one of the sequences `targets`
/// or that of the sequence `default`.
#[verifier::external_body]
pub(crate) fn br_table(unit: &mut Assembler, seq: usize, targets: &Vec<usize>, default: usize)
    requires
        sequences(*old(unit)).contains_key(seq as int),
        sequences(*old(unit)).contains_key(default as int),
        numbers(targets@).subset_of(sequences(*old(unit)).dom()),
    ensures
        sequences(*final(unit)) == sequences(*old(unit)).insert(
            seq as int,
            sequences(*old(unit))[seq as int].union(numbers(targets@)).insert(default as int),
        ),
        contents(*final(unit)) == with_item(
            contents(*old(unit)),
            seq as int,
            table_item(targets@, default),
        ),
        imported(*final(unit)) == imported(*old(unit)),
{
    let blocks = targets.iter().map(|t| unit.seqs[*t]).collect();
    let default = unit.seqs[default];
    unit.builder.instr_seq(unit.seqs[seq]).instr(BrTable { blocks, default });
}

/// `InstrSeqBuilder::instr` with a `Block` on the sequence `seq`: the
/// sequence `body` becomes a block of `seq`, with all that it holds. Its
/// branches out of other blocks than itself are now branches of `seq`,
/// and nothing more can be added to it.
#[verifier::external_body]
pub(crate) fn block(unit: &mut Assembler, seq: usize, body: usize)
    requires
        sequences(*old(unit)).contains_key(seq as int),
        sequences(*old(unit)).contains_key(body as int),
        seq != body,
    ensures
        sequences(*final(unit)) == sequences(*old(unit)).remove(body as int).insert(
            seq as int,
            sequences(*old(unit))[seq as int].union(
                sequences(*old(unit))[body as int].remove(body as int),
            ),
        ),
        contents(*final(unit)) == with_item(
            contents(*old(unit)).remove(body as int),
            seq as int,
            block_item(body as int, contents(*old(unit))[body as int]),
        ),
        imported(*final(unit)) == imported(*old(unit)),
{
    let body = unit.seqs[body];
    unit.builder.instr_seq(unit.seqs[seq]).instr(Block { seq: body });
}

/// `InstrSeqBuilder::instr` with an `IfElse` on the sequence `seq`: the
/// two other sequences become the branches of a conditional of `seq`,
/// with all that they hold. Their branches out of other blocks than
/// themselves are now branches of `seq`, and nothing more can be added to
/// them.
#[verifier::external_body]
pub(crate) fn if_else(unit: &mut Assembler, seq: usize, consequent: usize, alternative: usize)
    requires
        sequences(*old(unit)).contains_key(seq as int),
        sequences(*old(unit)).contains_key(consequent as int),
        sequences(*old(unit)).contains_key(alternative as int),
        seq != consequent,
        seq != alternative,
        consequent != alternative,
    ensures
        sequences(*final(unit)) == sequences(*old(unit)).remove(consequent as int).remove(
            alternative as int,
        ).insert(
            seq as int,
            sequences(*old(unit))[seq as int].union(
                sequences(*old(unit))[consequent as int].remove(consequent as int),
            ).union(sequences(*old(unit))[alternative as int].remove(alternative as int)),
        ),
        contents(*final(unit)) == with_item(
            contents(*old(unit)).remove(consequent as int).remove(alternative as int),
            seq as int,
            if_else_item(
                consequent as int,
                alternative as int,
                contents(*old(unit))[consequent as int],
                contents(*old(unit))[alternative as int],
            ),
        ),
        imported(*final(unit)) == imported(*old(unit)),
{
    let (consequent, alternative) = (unit.seqs[consequent], unit.seqs[alternative]);
    unit.builder.instr_seq(unit.seqs[seq]).instr(IfElse { consequent, alternative });
}

/// `FunctionBuilder::finish`, `ModuleExports::add` and
/// `Module::emit_wasm`: the entry function becomes a function of the
/// module and is exported under the given name, and the module is written
/// out in binary form. No branch of the entry function may be left
/// without its block, and all that was made must be part of its body.
///
/// The bytes are those of the module with the imports made and with the
/// body of the entry function, in which every branch names its block by
/// depth. No block outside the body takes part in that: no branch leaves
/// one.
#[verifier::external_body]
pub(crate) fn emit_wasm(unit: Assembler, entry_name: &str) -> (bytes: Vec<u8>)
    requires
        sequences(unit) == empty_function(),
    ensures
        bytes@ == module_bytes(
            imported(unit),
            relative(contents(unit)[0].items, Seq::empty()),
            entry_name@,
        ),
{
    let Assembler { mut module, builder, .. } = unit;
    let entry = builder.finish(Vec::new(), &mut module.funcs);
    module.exports.add(entry_name, entry);
    module.emit_wasm()
}

} // verus!
