//! From the instructions of the compiler to a module in binary form.
use vstd::prelude::*;
use crate::ast::Type;
use crate::modules::HostFunction;
use crate::wasm::builder::{
    add_import, assembler_new, block, block_item, br, br_if, br_table, call, contents, depth_of,
    depths_of, emit_wasm, empty_function, float_compare, float_from_bits, i32_const, i32_eqz,
    i32_mul, i64_and, i64_compare, i64_const, if_else, if_else_item, import_of, imported, ints,
    module_bytes, new_seq, numbers, relative, relative_item, relative_upto, sequences,
    Assembler, Import, Item, Plain, Sequence, Wasm,
};
use crate::wasm::{depths, lemma_ops, op_of, ops, Instr, Op, ValType};

verus! {

/// The number of the import by which the code reports a rule that
/// matched.
pub const RULE_MATCH: usize = 0;

/// The number of the import by which the code asks whether a pattern
/// matched.
pub const PATTERN_MATCH: usize = 1;

/// The number of the import by which the code asks for the offset of a
/// pattern.
pub const PATTERN_OFFSET: usize = 2;

/// The number of the import by which the code asks for the length of a
/// string.
pub const STRING_LENGTH: usize = 3;

/// The number of the import by which the code asks whether two strings
/// are the same.
pub const STRING_EQUALS: usize = 4;

/// The number of the import of the first function of the modules. The
/// others follow in their order.
pub const FIRST_FUNCTION: usize = 5;

/// Whether every one of `targets` is below `depth`.
pub open spec fn all_below(targets: Seq<nat>, depth: nat) -> bool {
    forall|i: int| 0 <= i < targets.len() ==> (#[trigger] targets[i]) < depth
}

/// Whether the instruction can stand at `depth` blocks deep in a module
/// with `nfuncs` functions of the modules: every branch leaves a block
/// that encloses it, and every call names a function that there is.
pub open spec fn valid_op(op: Op, depth: nat, nfuncs: nat) -> bool
    decreases op, 0nat,
{
    match op {
        Op::Br(d) => d < depth,
        Op::BrIf(d) => d < depth,
        Op::BrTable { targets, default } => default < depth && all_below(targets, depth),
        Op::Call { func_id, .. } => 0 <= func_id < nfuncs,
        Op::Block { body, .. } => valid_upto(body, body.len(), depth + 1, nfuncs),
        Op::IfElse { consequent, alternative, .. } => valid_upto(
            consequent,
            consequent.len(),
            depth + 1,
            nfuncs,
        ) && valid_upto(alternative, alternative.len(), depth + 1, nfuncs),
        _ => true,
    }
}

/// Whether the first `n` instructions of `code` can stand at `depth`.
pub open spec fn valid_upto(code: Seq<Op>, n: nat, depth: nat, nfuncs: nat) -> bool
    decreases code, n,
{
    if n == 0 || n > code.len() {
        true
    } else {
        valid_upto(code, (n - 1) as nat, depth, nfuncs) && valid_op(code[n - 1], depth, nfuncs)
    }
}

/// Whether `code` can stand at `depth`.
pub open spec fn valid(code: Seq<Op>, depth: nat, nfuncs: nat) -> bool {
    valid_upto(code, code.len(), depth, nfuncs)
}

/// The table of strings with `s` in it: `s` is added at the end unless it
/// is there already.
pub open spec fn with_string(table: Seq<Seq<u8>>, s: Seq<u8>) -> Seq<Seq<u8>> {
    if table.contains(s) {
        table
    } else {
        table.push(s)
    }
}

/// The table of strings with the strings that the instruction pushes.
pub open spec fn strings_after_op(table: Seq<Seq<u8>>, op: Op) -> Seq<Seq<u8>>
    decreases op, 0nat,
{
    match op {
        Op::StrConst(s) => with_string(table, s),
        Op::Block { body, .. } => strings_after(table, body, body.len()),
        Op::IfElse { consequent, alternative, .. } => strings_after(
            strings_after(table, consequent, consequent.len()),
            alternative,
            alternative.len(),
        ),
        _ => table,
    }
}

/// The table of strings with the strings that the first `n` instructions
/// of `code` push, each added where the code comes to it.
pub open spec fn strings_after(table: Seq<Seq<u8>>, code: Seq<Op>, n: nat) -> Seq<Seq<u8>>
    decreases code, n,
{
    if n == 0 || n > code.len() {
        table
    } else {
        strings_after_op(strings_after(table, code, (n - 1) as nat), code[n - 1])
    }
}

/// The strings of `code`, each once, in the order in which the code comes
/// to them. In the module a string is the number of its place among them.
pub open spec fn strings_of(code: Seq<Op>) -> Seq<Seq<u8>> {
    strings_after(Seq::empty(), code, code.len())
}

/// The first place at which `table` holds `s`.
pub open spec fn first_index(table: Seq<Seq<u8>>, s: Seq<u8>) -> int {
    choose|i: int| is_first_index(table, s, i)
}

/// Whether `i` is the first place at which `table` holds `s`.
pub open spec fn is_first_index(table: Seq<Seq<u8>>, s: Seq<u8>, i: int) -> bool {
    &&& 0 <= i < table.len()
    &&& table[i] == s
    &&& forall|j: int| 0 <= j < i ==> #[trigger] table[j] != s
}

/// The first place is the only one before which the string does not
/// occur.
pub proof fn lemma_first_index(table: Seq<Seq<u8>>, s: Seq<u8>, i: int)
    requires
        is_first_index(table, s, i),
    ensures
        first_index(table, s) == i,
{
    let c = first_index(table, s);
    if c < i {
        assert(table[c] != s);
    }
    if i < c {
        assert(table[i] != s);
    }
}

/// The 64-bit value by which the code knows the string `s`, where the
/// table held `table` before the code came to it: the number of its place
/// in the table.
pub open spec fn handle(table: Seq<Seq<u8>>, s: Seq<u8>) -> int {
    ((first_index(with_string(table, s), s) as usize) as i64) as int
}

/// The targets of a table of branches as integers.
pub open spec fn as_ints(targets: Seq<nat>) -> Seq<int> {
    Seq::new(targets.len(), |i: int| targets[i] as int)
}

/// The instruction as the module holds it, where the table of strings
/// held `table` before the code came to the instruction: a string is the
/// number of its place in the table, and what the host does is a call of
/// an import.
pub open spec fn low_op(table: Seq<Seq<u8>>, op: Op) -> Wasm
    decreases op, 0nat,
{
    match op {
        Op::I32Const(v) => Wasm::Plain(Plain::I32Const(v)),
        Op::I64Const(v) => Wasm::Plain(Plain::I64Const(v)),
        Op::StrConst(s) => Wasm::Plain(Plain::I64Const(handle(table, s))),
        Op::I32Eqz => Wasm::Plain(Plain::I32Eqz),
        Op::I32Mul => Wasm::Plain(Plain::I32Mul),
        Op::I64And => Wasm::Plain(Plain::I64And),
        Op::I64Cmp(rel) => Wasm::Plain(Plain::I64Compare(rel)),
        Op::FloatFromBits => Wasm::Plain(Plain::FloatFromBits),
        Op::FloatCmp(rel) => Wasm::Plain(Plain::FloatCompare(rel)),
        Op::StrLen => Wasm::Plain(Plain::Call(STRING_LENGTH as int)),
        Op::StrEq => Wasm::Plain(Plain::Call(STRING_EQUALS as int)),
        Op::PatMatch => Wasm::Plain(Plain::Call(PATTERN_MATCH as int)),
        Op::PatOffset => Wasm::Plain(Plain::Call(PATTERN_OFFSET as int)),
        Op::RuleMatch => Wasm::Plain(Plain::Call(RULE_MATCH as int)),
        Op::Call { func_id, .. } => Wasm::Plain(Plain::Call(FIRST_FUNCTION + func_id)),
        Op::Block { ty, body } => Wasm::Block { ty, body: low_upto(table, body, body.len()) },
        Op::IfElse { ty, consequent, alternative } => Wasm::IfElse {
            ty,
            else_ty: ty,
            first: low_upto(table, consequent, consequent.len()),
            second: low_upto(
                strings_after(table, consequent, consequent.len()),
                alternative,
                alternative.len(),
            ),
        },
        Op::Br(d) => Wasm::Br(d as int),
        Op::BrIf(d) => Wasm::BrIf(d as int),
        Op::BrTable { targets, default } => Wasm::BrTable {
            targets: as_ints(targets),
            default: default as int,
        },
    }
}

/// The first `n` instructions of `code` as the module holds them.
pub open spec fn low_upto(table: Seq<Seq<u8>>, code: Seq<Op>, n: nat) -> Seq<Wasm>
    decreases code, n,
{
    if n == 0 || n > code.len() {
        Seq::empty()
    } else {
        low_upto(table, code, (n - 1) as nat).push(
            low_op(strings_after(table, code, (n - 1) as nat), code[n - 1]),
        )
    }
}

/// The code of an entry function as the module holds it.
pub open spec fn low(code: Seq<Op>) -> Seq<Wasm> {
    low_upto(Seq::empty(), code, code.len())
}

/// The contents of the strings.
pub open spec fn texts(strings: Seq<Vec<u8>>) -> Seq<Seq<u8>> {
    Seq::new(strings.len(), |i: int| strings[i]@)
}

/// Whether `t` is one of `labels`.
pub open spec fn is_label(labels: Seq<usize>, t: int) -> bool {
    exists|i: int| 0 <= i < labels.len() && #[trigger] labels[i] == t
}

/// What lowering code into the sequence `seq` does to the sequences: it
/// leaves no other sequence behind and changes no other, and the branches
/// that it adds leave blocks of `labels`.
pub open spec fn lowered(
    before: Map<int, Set<int>>,
    after: Map<int, Set<int>>,
    seq: int,
    labels: Seq<usize>,
) -> bool {
    &&& after.dom() =~= before.dom()
    &&& forall|s: int| before.contains_key(s) && s != seq ==> after[s] == before[s]
    &&& forall|t: int| #[trigger]
        after[seq].contains(t) ==> before[seq].contains(t) || is_label(labels, t)
}

/// What lowering code into the sequence `seq` does to what the sequences
/// hold: no other sequence of `dom` changes, and the sequence gets
/// instructions that are `expected` in the binary form.
pub open spec fn filled(
    before: Map<int, Sequence>,
    after: Map<int, Sequence>,
    dom: Set<int>,
    seq: int,
    labels: Seq<usize>,
    expected: Seq<Wasm>,
) -> bool {
    let n0 = before[seq].items.len() as int;
    &&& forall|s: int| dom.contains(s) && s != seq ==> #[trigger] after[s] == before[s]
    &&& after[seq].ty == before[seq].ty
    &&& after[seq].items.len() == n0 + expected.len()
    &&& after[seq].items.take(n0) == before[seq].items
    &&& relative(after[seq].items.skip(n0), ints(labels)) == expected
}

/// Whether no sequence is among `labels` twice.
pub open spec fn distinct_labels(labels: Seq<usize>) -> bool {
    forall|i: int, j: int|
        0 <= i < labels.len() && 0 <= j < labels.len() && i != j ==> #[trigger] labels[i]
            != #[trigger] labels[j]
}

/// The first instructions of a sequence are in the binary form what they
/// are there alone.
pub proof fn lemma_relative_prefix(a: Seq<Item>, b: Seq<Item>, n: nat, enclosing: Seq<int>)
    requires
        n <= a.len(),
    ensures
        relative_upto(a + b, n, enclosing) == relative_upto(a, n, enclosing),
    decreases n,
{
    if n > 0 {
        lemma_relative_prefix(a, b, (n - 1) as nat, enclosing);
        assert((a + b)[n - 1] == a[n - 1]);
    }
}

/// A sequence with one more instruction is in the binary form the
/// sequence with the instruction in its binary form.
pub proof fn lemma_relative_push(a: Seq<Item>, item: Item, enclosing: Seq<int>)
    ensures
        relative(a.push(item), enclosing) == relative(a, enclosing).push(
            relative_item(item, enclosing),
        ),
        relative(seq![item], enclosing) == seq![relative_item(item, enclosing)],
{
    assert(a.push(item) =~= a + seq![item]);
    lemma_relative_prefix(a, seq![item], a.len(), enclosing);
    let one = seq![item];
    assert(one.len() == 1);
    assert(relative_upto(one, 0, enclosing) =~= Seq::<Wasm>::empty());
    assert(one[0] == item);
    assert(relative(one, enclosing) =~= seq![relative_item(item, enclosing)]);
}

/// A branch to an enclosing block that no block inside it repeats names
/// the block by the number of blocks inside it.
pub proof fn lemma_depth(enclosing: Seq<int>, k: int)
    requires
        0 <= k < enclosing.len(),
        forall|j: int| k < j < enclosing.len() ==> #[trigger] enclosing[j] != enclosing[k],
    ensures
        depth_of(enclosing, enclosing[k]) == enclosing.len() - 1 - k,
    decreases enclosing.len() - k,
{
    if k < enclosing.len() - 1 {
        assert(enclosing.last() != enclosing[k]);
        let rest = enclosing.drop_last();
        assert(rest[k] == enclosing[k]);
        assert forall|j: int| k < j < rest.len() implies #[trigger] rest[j] != rest[k] by {
            assert(rest[j] == enclosing[j]);
        }
        lemma_depth(rest, k);
    }
}

/// A branch of depth `d` to one of `labels`, which are distinct, names
/// that depth in the binary form.
pub proof fn lemma_label_depth(labels: Seq<usize>, d: int)
    requires
        distinct_labels(labels),
        0 <= d < labels.len(),
    ensures
        depth_of(ints(labels), labels[labels.len() - 1 - d] as int) == d,
{
    let l = ints(labels);
    let k = labels.len() - 1 - d;
    assert(l[k] == labels[k]);
    assert forall|j: int| k < j < l.len() implies #[trigger] l[j] != l[k] by {
        assert(l[j] == labels[j]);
    }
    lemma_depth(l, k);
}

/// One instruction that is added to a sequence fills it with that
/// instruction in its binary form.
pub proof fn lemma_filled_one(
    before: Map<int, Sequence>,
    after: Map<int, Sequence>,
    dom: Set<int>,
    seq: int,
    labels: Seq<usize>,
    item: Item,
)
    requires
        forall|s: int| dom.contains(s) && s != seq ==> #[trigger] after[s] == before[s],
        after[seq] == (Sequence { ty: before[seq].ty, items: before[seq].items.push(item) }),
    ensures
        filled(before, after, dom, seq, labels, seq![relative_item(item, ints(labels))]),
{
    let n0 = before[seq].items.len() as int;
    assert(after[seq].items.take(n0) =~= before[seq].items);
    assert(after[seq].items.skip(n0) =~= seq![item]);
    lemma_relative_push(Seq::empty(), item, ints(labels));
}

/// What fills a sequence after what has filled it fills it with both.
pub proof fn lemma_filled_more(
    m0: Map<int, Sequence>,
    m1: Map<int, Sequence>,
    m2: Map<int, Sequence>,
    dom: Set<int>,
    seq: int,
    labels: Seq<usize>,
    expected: Seq<Wasm>,
    next: Wasm,
)
    requires
        filled(m0, m1, dom, seq, labels, expected),
        filled(m1, m2, dom, seq, labels, seq![next]),
    ensures
        filled(m0, m2, dom, seq, labels, expected.push(next)),
{
    let n0 = m0[seq].items.len() as int;
    let n1 = m1[seq].items.len() as int;
    let l = ints(labels);
    let items = m2[seq].items;
    let last = items[n1];
    let earlier = m1[seq].items.skip(n0);
    assert(items.take(n1) == m1[seq].items);
    assert forall|i: int| 0 <= i < n1 implies items[i] == m1[seq].items[i] by {
        assert(items.take(n1)[i] == items[i]);
    }
    assert(items.take(n0) =~= m1[seq].items.take(n0));
    assert(items.skip(n1) =~= seq![last]);
    assert(items.skip(n0) =~= earlier.push(last));
    lemma_relative_push(earlier, last, l);
    assert(relative(seq![last], l) == seq![next]);
    assert(seq![relative_item(last, l)][0] == seq![next][0]);
    assert(relative(items.skip(n0), l) == expected.push(next));
    assert forall|s: int| dom.contains(s) && s != seq implies #[trigger] m2[s] == m0[s] by {
        assert(m1[s] == m0[s]);
    }
}

/// Whether every one of `labels` is a sequence that can still be added to.
pub open spec fn labels_open(m: Map<int, Set<int>>, labels: Seq<usize>) -> bool {
    forall|i: int| 0 <= i < labels.len() ==> m.contains_key(#[trigger] labels[i] as int)
}

/// Whether the two strings are the same.
fn same_bytes(a: &Vec<u8>, b: &Vec<u8>) -> (r: bool)
    ensures
        r == (a@ == b@),
{
    if a.len() != b.len() {
        return false;
    }
    let mut i: usize = 0;
    while i < a.len()
        invariant
            0 <= i <= a@.len(),
            a@.len() == b@.len(),
            forall|j: int| 0 <= j < i ==> a@[j] == b@[j],
        decreases a@.len() - i,
    {
        if a[i] != b[i] {
            return false;
        }
        i = i + 1;
    }
    proof {
        assert(a@ =~= b@);
    }
    true
}

/// The number of the string `s` in the table, to which it is added if
/// it is not there yet.
fn string_number(strings: &mut Vec<Vec<u8>>, s: &Vec<u8>) -> (n: usize)
    ensures
        texts(final(strings)@) == with_string(texts(old(strings)@), s@),
        n < final(strings)@.len(),
        final(strings)@[n as int]@ == s@,
        n == first_index(texts(final(strings)@), s@),
{
    let mut i: usize = 0;
    while i < strings.len()
        invariant
            0 <= i <= strings@.len(),
            strings@ == old(strings)@,
            forall|j: int| 0 <= j < i ==> texts(strings@)[j] != s@,
        decreases strings@.len() - i,
    {
        if same_bytes(&strings[i], s) {
            proof {
                assert(texts(strings@)[i as int] == s@);
                lemma_first_index(texts(strings@), s@, i as int);
            }
            return i;
        }
        i = i + 1;
    }
    let ghost before = texts(strings@);
    strings.push(s.clone());
    proof {
        assert(!before.contains(s@));
        assert(texts(strings@) =~= before.push(s@));
        assert forall|j: int| 0 <= j < i implies #[trigger] texts(strings@)[j] != s@ by {
            assert(texts(strings@)[j] == before[j]);
        }
        lemma_first_index(texts(strings@), s@, i as int);
    }
    i
}

/// Fills a new sequence with `body`, as the body of a block that is
/// `labels.len()` blocks deep. The result is the number of the sequence,
/// or `None` where the body is not valid.
fn lower_body(
    unit: &mut Assembler,
    nfuncs: usize,
    labels: &mut Vec<usize>,
    strings: &mut Vec<Vec<u8>>,
    ty: Option<ValType>,
    body: &Vec<Instr>,
) -> (r: Option<usize>)
    requires
        labels_open(sequences(*old(unit)), old(labels)@),
        distinct_labels(old(labels)@),
        imported(*old(unit)).len() == FIRST_FUNCTION + nfuncs,
        nfuncs <= usize::MAX - FIRST_FUNCTION,
    ensures
        r.is_some() == valid(ops(body@), old(labels)@.len() + 1, nfuncs as nat),
        match r {
            Some(c) => {
                &&& !sequences(*old(unit)).contains_key(c as int)
                &&& sequences(*final(unit)).dom() =~= sequences(*old(unit)).dom().insert(c as int)
                &&& forall|s: int| #[trigger]
                    sequences(*old(unit)).contains_key(s) ==> sequences(*final(unit))[s]
                        == sequences(*old(unit))[s]
                &&& forall|t: int| #[trigger]
                    sequences(*final(unit))[c as int].contains(t) ==> t == c || is_label(
                        old(labels)@,
                        t,
                    )
                &&& imported(*final(unit)) == imported(*old(unit))
                &&& final(labels)@ == old(labels)@
                &&& texts(final(strings)@) == strings_after(
                    texts(old(strings)@),
                    ops(body@),
                    body@.len() as nat,
                )
                &&& forall|s: int| #[trigger]
                    sequences(*old(unit)).contains_key(s) ==> contents(*final(unit))[s]
                        == contents(*old(unit))[s]
                &&& contents(*final(unit))[c as int].ty == ty
                &&& relative(
                    contents(*final(unit))[c as int].items,
                    ints(old(labels)@).push(c as int),
                ) == low_upto(texts(old(strings)@), ops(body@), body@.len() as nat)
            },
            None => true,
        },
    decreases *body, 1nat,
{
    let c = new_seq(unit, ty);
    let ghost before = sequences(*unit);
    let ghost held = contents(*unit);
    labels.push(c);
    proof {
        assert forall|i: int, j: int|
            0 <= i < labels@.len() && 0 <= j < labels@.len() && i != j implies #[trigger] labels@[i]
                != #[trigger] labels@[j] by {
            if i < old(labels)@.len() {
                assert(sequences(*old(unit)).contains_key(old(labels)@[i] as int));
            }
            if j < old(labels)@.len() {
                assert(sequences(*old(unit)).contains_key(old(labels)@[j] as int));
            }
        }
        assert forall|i: int| 0 <= i < labels@.len() implies sequences(*unit).contains_key(
            #[trigger] labels@[i] as int,
        ) by {
            if i < old(labels)@.len() {
                assert(labels@[i] == old(labels)@[i]);
            }
        }
    }
    let ok = lower_seq(unit, nfuncs, labels, strings, c, body);
    labels.pop();
    if !ok {
        return None;
    }
    proof {
        assert(labels@ =~= old(labels)@);
        let after = sequences(*unit);
        let items = contents(*unit)[c as int].items;
        assert(items.skip(0) =~= items);
        assert(ints(old(labels)@.push(c)) =~= ints(old(labels)@).push(c as int));
        assert forall|s: int| #[trigger] sequences(*old(unit)).contains_key(s) implies contents(
            *unit,
        )[s] == contents(*old(unit))[s] by {
            assert(before.dom().contains(s));
            assert(contents(*unit)[s] == held[s]);
        }
        assert forall|t: int| #[trigger] after[c as int].contains(t) implies t == c || is_label(
            old(labels)@,
            t,
        ) by {
            if t != c {
                assert(is_label(old(labels)@.push(c), t));
                let i = choose|i: int|
                    0 <= i < old(labels)@.push(c).len() && #[trigger] old(labels)@.push(c)[i] == t;
                assert(old(labels)@[i] == t);
            }
        }
    }
    Some(c)
}

/// Adds the instruction to the sequence `seq`, which is `labels.len()`
/// blocks deep. The result says whether the instruction is valid.
fn lower_instr(
    unit: &mut Assembler,
    nfuncs: usize,
    labels: &mut Vec<usize>,
    strings: &mut Vec<Vec<u8>>,
    seq: usize,
    instr: &Instr,
) -> (ok: bool)
    requires
        sequences(*old(unit)).contains_key(seq as int),
        labels_open(sequences(*old(unit)), old(labels)@),
        distinct_labels(old(labels)@),
        imported(*old(unit)).len() == FIRST_FUNCTION + nfuncs,
        nfuncs <= usize::MAX - FIRST_FUNCTION,
    ensures
        ok == valid_op(op_of(*instr), old(labels)@.len(), nfuncs as nat),
        ok ==> lowered(sequences(*old(unit)), sequences(*final(unit)), seq as int, old(labels)@),
        ok ==> imported(*final(unit)) == imported(*old(unit)),
        ok ==> final(labels)@ == old(labels)@,
        ok ==> texts(final(strings)@) == strings_after_op(texts(old(strings)@), op_of(*instr)),
        ok ==> filled(
            contents(*old(unit)),
            contents(*final(unit)),
            sequences(*old(unit)).dom(),
            seq as int,
            old(labels)@,
            seq![low_op(texts(old(strings)@), op_of(*instr))],
        ),
    decreases *instr, 0nat,
{
    let ghost m0 = sequences(*unit);
    let ghost c0 = contents(*unit);
    let ghost t0 = texts(strings@);
    match instr {
        Instr::I32Const(v) => {
            i32_const(unit, seq, *v);
        },
        Instr::I64Const(v) => {
            i64_const(unit, seq, *v);
        },
        Instr::StrConst(s) => {
            let number = string_number(strings, s);
            let value = #[verifier::truncate] (number as i64);
            i64_const(unit, seq, value);
            proof {
                let item = Item::Plain(Plain::I64Const(value as int));
                lemma_filled_one(c0, contents(*unit), m0.dom(), seq as int, labels@, item);
            }
            return true;
        },
        Instr::I32Eqz => {
            i32_eqz(unit, seq);
        },
        Instr::I32Mul => {
            i32_mul(unit, seq);
        },
        Instr::I64And => {
            i64_and(unit, seq);
        },
        Instr::I64Cmp(op) => {
            i64_compare(unit, seq, *op);
        },
        Instr::FloatFromBits => {
            float_from_bits(unit, seq);
        },
        Instr::FloatCmp(op) => {
            float_compare(unit, seq, *op);
        },
        Instr::StrLen => {
            call(unit, seq, STRING_LENGTH);
        },
        Instr::StrEq => {
            call(unit, seq, STRING_EQUALS);
        },
        Instr::PatMatch => {
            call(unit, seq, PATTERN_MATCH);
        },
        Instr::PatOffset => {
            call(unit, seq, PATTERN_OFFSET);
        },
        Instr::RuleMatch => {
            call(unit, seq, RULE_MATCH);
        },
        Instr::Call { func_id, .. } => {
            if *func_id as usize >= nfuncs {
                return false;
            }
            call(unit, seq, FIRST_FUNCTION + *func_id as usize);
        },
        Instr::Br(d) => {
            if *d as usize >= labels.len() {
                return false;
            }
            let target = labels[labels.len() - 1 - *d as usize];
            br(unit, seq, target);
            proof {
                assert(is_label(labels@, target as int));
                lemma_label_depth(labels@, *d as int);
            }
        },
        Instr::BrIf(d) => {
            if *d as usize >= labels.len() {
                return false;
            }
            let target = labels[labels.len() - 1 - *d as usize];
            br_if(unit, seq, target);
            proof {
                assert(is_label(labels@, target as int));
                lemma_label_depth(labels@, *d as int);
            }
        },
        Instr::BrTable { targets, default } => {
            if *default as usize >= labels.len() {
                return false;
            }
            let fallback = labels[labels.len() - 1 - *default as usize];
            let mut blocks: Vec<usize> = Vec::new();
            let mut i: usize = 0;
            while i < targets.len()
                invariant
                    0 <= i <= targets@.len(),
                    blocks@.len() == i,
                    *instr == (Instr::BrTable { targets: *targets, default: *default }),
                    labels@ == old(labels)@,
                    forall|k: int| 0 <= k < i ==> (#[trigger] targets@[k]) < labels@.len(),
                    forall|k: int| 0 <= k < i ==> is_label(labels@, #[trigger] blocks@[k] as int),
                    forall|k: int|
                        0 <= k < i ==> #[trigger] blocks@[k] == labels@[labels@.len() - 1
                            - targets@[k]],
                decreases targets@.len() - i,
            {
                if targets[i] as usize >= labels.len() {
                    proof {
                        let table = depths(targets@);
                        assert(table.len() == targets@.len());
                        assert(table[i as int] == targets@[i as int]);
                        assert(!(table[i as int] < labels@.len()));
                        let op = Op::BrTable { targets: table, default: *default as nat };
                        assert(op_of(*instr) == op);
                        lemma_table_invalid(
                            table,
                            *default as nat,
                            labels@.len(),
                            nfuncs as nat,
                            i as int,
                        );
                    }
                    return false;
                }
                let target = labels[labels.len() - 1 - targets[i] as usize];
                blocks.push(target);
                proof {
                    assert(is_label(labels@, target as int));
                }
                i = i + 1;
            }
            proof {
                assert(is_label(labels@, fallback as int));
                assert forall|t: int| numbers(blocks@).contains(t) implies m0.contains_key(
                    t,
                ) && is_label(labels@, t) by {
                    let k = choose|k: int| 0 <= k < blocks@.len() && #[trigger] blocks@[k] == t;
                    assert(is_label(labels@, blocks@[k] as int));
                    let j = choose|j: int| 0 <= j < labels@.len() && #[trigger] labels@[j] == t;
                    assert(m0.contains_key(labels@[j] as int));
                }
                assert forall|k: int| 0 <= k < depths(targets@).len() implies (#[trigger] depths(
                    targets@,
                )[k]) < labels@.len() by {
                    assert(targets@[k] < labels@.len());
                }
                lemma_label_depth(labels@, *default as int);
                assert(depths_of(ints(labels@), ints(blocks@)) =~= as_ints(depths(targets@))) by {
                    assert forall|k: int| 0 <= k < blocks@.len() implies depth_of(
                        ints(labels@),
                        ints(blocks@)[k],
                    ) == as_ints(depths(targets@))[k] by {
                        lemma_label_depth(labels@, targets@[k] as int);
                    }
                }
            }
            br_table(unit, seq, &blocks, fallback);
        },
        Instr::Block { ty, body } => {
            match lower_body(unit, nfuncs, labels, strings, *ty, body) {
                Some(c) => {
                    let ghost c1 = contents(*unit);
                    block(unit, seq, c);
                    proof {
                        lemma_ops(body@);
                        let item = block_item(c as int, c1[c as int]);
                        assert(c1[seq as int] == c0[seq as int]);
                        assert forall|s: int| m0.dom().contains(s) && s != seq implies #[trigger] contents(
                            *unit,
                        )[s] == c0[s] by {
                            assert(m0.contains_key(s));
                            assert(c1[s] == c0[s]);
                        }
                        lemma_filled_one(c0, contents(*unit), m0.dom(), seq as int, labels@, item);
                    }
                },
                None => {
                    return false;
                },
            }
            return true;
        },
        Instr::IfElse { ty, consequent, alternative } => {
            let c = match lower_body(unit, nfuncs, labels, strings, *ty, consequent) {
                Some(c) => c,
                None => {
                    return false;
                },
            };
            let ghost m1 = sequences(*unit);
            let ghost c1 = contents(*unit);
            let a = match lower_body(unit, nfuncs, labels, strings, *ty, alternative) {
                Some(a) => a,
                None => {
                    return false;
                },
            };
            let ghost m2 = sequences(*unit);
            let ghost c2 = contents(*unit);
            if_else(unit, seq, c, a);
            proof {
                lemma_ops(consequent@);
                lemma_ops(alternative@);
                let m3 = sequences(*unit);
                let item = if_else_item(c as int, a as int, c2[c as int], c2[a as int]);
                assert(m1.contains_key(c as int));
                assert(c2[c as int] == c1[c as int]);
                assert(c1[seq as int] == c0[seq as int]);
                assert(m1.contains_key(seq as int));
                assert(c2[seq as int] == c1[seq as int]);
                assert forall|s: int| m0.dom().contains(s) && s != seq implies #[trigger] contents(
                    *unit,
                )[s] == c0[s] by {
                    assert(m0.contains_key(s));
                    assert(c1[s] == c0[s]);
                    assert(m1.contains_key(s));
                    assert(c2[s] == c1[s]);
                }
                lemma_filled_one(c0, contents(*unit), m0.dom(), seq as int, labels@, item);
                assert(m0.contains_key(seq as int));
                assert(m1[seq as int] == m0[seq as int]);
                assert(m1.contains_key(seq as int));
                assert(m1.contains_key(c as int));
                assert(m2[seq as int] == m1[seq as int]);
                assert(m2[c as int] == m1[c as int]);
                assert(m3.dom() =~= m0.dom());
                assert forall|s: int| m0.contains_key(s) && s != seq implies m3[s] == m0[s] by {
                    assert(m1[s] == m0[s]);
                    assert(m1.contains_key(s));
                    assert(m2[s] == m1[s]);
                }
                assert forall|t: int| #[trigger] m3[seq as int].contains(t) implies m0[seq as int].contains(
                    t,
                ) || is_label(labels@, t) by {
                    if m2[c as int].remove(c as int).contains(t) {
                        assert(m1[c as int].contains(t));
                    }
                    if m2[a as int].remove(a as int).contains(t) {
                        assert(m2[a as int].contains(t));
                    }
                }
            }
            return true;
        },
    }
    proof {
        let after = contents(*unit);
        let item = after[seq as int].items.last();
        assert(after[seq as int].items == c0[seq as int].items.push(item));
        lemma_filled_one(c0, after, m0.dom(), seq as int, labels@, item);
    }
    true
}

/// Adds `code` to the sequence `seq`, which is `labels.len()` blocks
/// deep. The result says whether the code is valid.
fn lower_seq(
    unit: &mut Assembler,
    nfuncs: usize,
    labels: &mut Vec<usize>,
    strings: &mut Vec<Vec<u8>>,
    seq: usize,
    code: &Vec<Instr>,
) -> (ok: bool)
    requires
        sequences(*old(unit)).contains_key(seq as int),
        labels_open(sequences(*old(unit)), old(labels)@),
        distinct_labels(old(labels)@),
        imported(*old(unit)).len() == FIRST_FUNCTION + nfuncs,
        nfuncs <= usize::MAX - FIRST_FUNCTION,
    ensures
        ok ==> filled(
            contents(*old(unit)),
            contents(*final(unit)),
            sequences(*old(unit)).dom(),
            seq as int,
            old(labels)@,
            low_upto(texts(old(strings)@), ops(code@), code@.len() as nat),
        ),
        ok == valid(ops(code@), old(labels)@.len(), nfuncs as nat),
        ok ==> lowered(sequences(*old(unit)), sequences(*final(unit)), seq as int, old(labels)@),
        ok ==> imported(*final(unit)) == imported(*old(unit)),
        ok ==> final(labels)@ == old(labels)@,
        ok ==> texts(final(strings)@) == strings_after(
            texts(old(strings)@),
            ops(code@),
            code@.len() as nat,
        ),
    decreases *code, 0nat,
{
    let ghost m0 = sequences(*unit);
    let ghost t0 = texts(strings@);
    let ghost all = ops(code@);
    let ghost depth = labels@.len();
    let ghost c0 = contents(*unit);
    proof {
        lemma_ops(code@);
        let items = c0[seq as int].items;
        assert(items.take(items.len() as int) =~= items);
        assert(items.skip(items.len() as int) =~= Seq::<Item>::empty());
    }
    let mut i: usize = 0;
    while i < code.len()
        invariant
            0 <= i <= code@.len(),
            all == ops(code@),
            all.len() == code@.len(),
            forall|k: int| 0 <= k < code@.len() ==> #[trigger] all[k] == op_of(code@[k]),
            depth == old(labels)@.len(),
            sequences(*unit).contains_key(seq as int),
            labels@ == old(labels)@,
            labels_open(sequences(*unit), labels@),
            imported(*unit) == imported(*old(unit)),
            imported(*unit).len() == FIRST_FUNCTION + nfuncs,
            nfuncs <= usize::MAX - FIRST_FUNCTION,
            m0 == sequences(*old(unit)),
            t0 == texts(old(strings)@),
            lowered(m0, sequences(*unit), seq as int, labels@),
            valid_upto(all, i as nat, depth as nat, nfuncs as nat),
            texts(strings@) == strings_after(t0, all, i as nat),
            distinct_labels(labels@),
            c0 == contents(*old(unit)),
            filled(c0, contents(*unit), m0.dom(), seq as int, labels@, low_upto(t0, all, i as nat)),
        decreases code@.len() - i,
    {
        let ghost m1 = sequences(*unit);
        let ghost c1 = contents(*unit);
        let ghost t1 = texts(strings@);
        if !lower_instr(unit, nfuncs, labels, strings, seq, &code[i]) {
            proof {
                lemma_invalid(all, (i + 1) as nat, code@.len() as nat, depth as nat, nfuncs as nat);
            }
            return false;
        }
        proof {
            let m2 = sequences(*unit);
            assert forall|t: int| #[trigger] m2[seq as int].contains(t) implies m0[seq as int].contains(
                t,
            ) || is_label(labels@, t) by {
                if !is_label(labels@, t) {
                    assert(m1[seq as int].contains(t));
                }
            }
            assert(m1.dom() == m0.dom());
            lemma_filled_more(
                c0,
                c1,
                contents(*unit),
                m0.dom(),
                seq as int,
                labels@,
                low_upto(t0, all, i as nat),
                low_op(t1, all[i as int]),
            );
        }
        i = i + 1;
    }
    true
}

/// A table of branches with a target that no block encloses is not
/// valid.
pub proof fn lemma_table_invalid(targets: Seq<nat>, default: nat, depth: nat, nfuncs: nat, i: int)
    requires
        0 <= i < targets.len(),
        targets[i] >= depth,
    ensures
        !valid_op(Op::BrTable { targets, default }, depth, nfuncs),
{
}

/// Code that is not valid up to `n` is not valid up to any `m` from `n`
/// on.
pub proof fn lemma_invalid(code: Seq<Op>, n: nat, m: nat, depth: nat, nfuncs: nat)
    requires
        n <= m <= code.len(),
        !valid_upto(code, n, depth, nfuncs),
    ensures
        !valid_upto(code, m, depth, nfuncs),
    decreases m,
{
    if n < m {
        lemma_invalid(code, n, (m - 1) as nat, depth, nfuncs);
    }
}

/// The type of the values of a type of the rule language: a boolean is a
/// 32-bit value; an integer, the bits of a floating-point number and the
/// number of a string are 64-bit values.
pub open spec fn val_type_of(ty: Type) -> ValType {
    if ty == Type::Bool {
        ValType::I32
    } else {
        ValType::I64
    }
}

/// The types of the values of the given types.
pub open spec fn param_types(types: Seq<Type>) -> Seq<ValType> {
    Seq::new(types.len(), |i: int| val_type_of(types[i]))
}

/// The types of the values of the given types.
fn val_types(types: &Vec<Type>) -> (r: Vec<ValType>)
    ensures
        r@ == param_types(types@),
{
    let mut r: Vec<ValType> = Vec::new();
    let mut i: usize = 0;
    while i < types.len()
        invariant
            0 <= i <= types@.len(),
            r@.len() == i,
            forall|k: int| 0 <= k < i ==> #[trigger] r@[k] == val_type_of(types@[k]),
        decreases types@.len() - i,
    {
        r.push(if types[i] == Type::Bool { ValType::I32 } else { ValType::I64 });
        i = i + 1;
    }
    proof {
        assert(r@ =~= param_types(types@));
    }
    r
}

/// The imports that every module has, each at the place that is its
/// number: the report of a rule that matched, the questions whether a
/// pattern matched and where, the length of a string, and whether two
/// strings are the same.
pub open spec fn fixed_imports() -> Seq<Import> {
    seq![
        import_of("host"@, "rule_match"@, seq![ValType::I32], Seq::empty()),
        import_of("host"@, "pattern_match"@, seq![ValType::I32], seq![ValType::I32]),
        import_of("host"@, "pattern_offset"@, seq![ValType::I32], seq![ValType::I64, ValType::I32]),
        import_of("host"@, "string_length"@, seq![ValType::I64], seq![ValType::I64]),
        import_of("host"@, "string_equals"@, seq![ValType::I64, ValType::I64], seq![ValType::I32]),
    ]
}

/// The import of a function of the modules: it takes its arguments and
/// gives its result and a flag that says whether the result is undefined.
pub open spec fn function_import(f: HostFunction) -> Import {
    import_of(
        "host"@,
        f.name@,
        param_types(f.args@),
        seq![val_type_of(f.result), ValType::I32],
    )
}

/// The imports of the first `n` of `functions`.
pub open spec fn function_imports(functions: Seq<HostFunction>, n: nat) -> Seq<Import> {
    Seq::new(n, |i: int| function_import(functions[i]))
}

/// The imports of a module for the given functions of the modules.
pub open spec fn imports_for(functions: Seq<HostFunction>) -> Seq<Import> {
    fixed_imports() + function_imports(functions, functions.len())
}

/// The imports of a module for the functions of the module `string`:
/// those that every module has, then the length of a string and the two
/// conversions of a string to an integer.
pub open spec fn standard_imports() -> Seq<Import> {
    fixed_imports() + seq![
        import_of(
            "host"@,
            "string.length"@,
            seq![ValType::I64],
            seq![ValType::I64, ValType::I32],
        ),
        import_of(
            "host"@,
            "string.to_int"@,
            seq![ValType::I64],
            seq![ValType::I64, ValType::I32],
        ),
        import_of(
            "host"@,
            "string.to_int_base"@,
            seq![ValType::I64, ValType::I64],
            seq![ValType::I64, ValType::I32],
        ),
    ]
}

/// Declares the imports of a module: the five that every module has,
/// then the functions of the modules in their order.
fn declare_imports(unit: &mut Assembler, functions: &Vec<HostFunction>)
    requires
        imported(*old(unit)).len() == 0,
    ensures
        imported(*final(unit)) == imports_for(functions@),
        imported(*final(unit)).len() == FIRST_FUNCTION + functions@.len(),
        sequences(*final(unit)) == sequences(*old(unit)),
        contents(*final(unit)) == contents(*old(unit)),
{
    let mut one32: Vec<ValType> = Vec::new();
    one32.push(ValType::I32);
    let mut one64: Vec<ValType> = Vec::new();
    one64.push(ValType::I64);
    let mut two64: Vec<ValType> = Vec::new();
    two64.push(ValType::I64);
    two64.push(ValType::I64);
    let mut value_and_flag: Vec<ValType> = Vec::new();
    value_and_flag.push(ValType::I64);
    value_and_flag.push(ValType::I32);
    let nothing: Vec<ValType> = Vec::new();
    proof {
        assert(one32@ =~= seq![ValType::I32]);
        assert(one64@ =~= seq![ValType::I64]);
        assert(two64@ =~= seq![ValType::I64, ValType::I64]);
        assert(value_and_flag@ =~= seq![ValType::I64, ValType::I32]);
        assert(nothing@ =~= Seq::<ValType>::empty());
    }
    add_import(unit, "host", "rule_match", &one32, &nothing);
    add_import(unit, "host", "pattern_match", &one32, &one32);
    add_import(unit, "host", "pattern_offset", &one32, &value_and_flag);
    add_import(unit, "host", "string_length", &one64, &one64);
    add_import(unit, "host", "string_equals", &two64, &one32);
    proof {
        assert(imported(*old(unit)) =~= Seq::<Import>::empty());
        assert(imported(*unit) =~= fixed_imports() + function_imports(functions@, 0));
    }
    let mut i: usize = 0;
    while i < functions.len()
        invariant
            0 <= i <= functions@.len(),
            imported(*unit) == fixed_imports() + function_imports(functions@, i as nat),
            sequences(*unit) == sequences(*old(unit)),
            contents(*unit) == contents(*old(unit)),
        decreases functions@.len() - i,
    {
        let f = &functions[i];
        let params = val_types(&f.args);
        let mut results: Vec<ValType> = Vec::new();
        results.push(if f.result == Type::Bool { ValType::I32 } else { ValType::I64 });
        results.push(ValType::I32);
        proof {
            assert(results@ =~= seq![val_type_of(f.result), ValType::I32]);
        }
        add_import(unit, "host", f.name.as_str(), &params, &results);
        proof {
            assert(imported(*unit) =~= fixed_imports() + function_imports(
                functions@,
                (i + 1) as nat,
            ));
        }
        i = i + 1;
    }
}

/// A module in binary form, with the strings of its code. A string is
/// known to the code by the number of its place among them.
pub struct BinaryModule {
    pub wasm: Vec<u8>,
    pub strings: Vec<Vec<u8>>,
}

/// Builds the module whose entry function is `code` and which imports
/// the given functions for the modules, and which exports the entry
/// function as `main`. There is no module where the code is not valid.
pub fn assemble(code: &Vec<Instr>, functions: &Vec<HostFunction>) -> (r: Option<BinaryModule>)
    ensures
        r.is_some() == (functions@.len() <= usize::MAX - FIRST_FUNCTION && valid(
            ops(code@),
            0,
            functions@.len(),
        )),
        r.is_some() ==> texts(r.unwrap().strings@) == strings_of(ops(code@)),
        r.is_some() ==> r.unwrap().wasm@ == module_bytes(
            imports_for(functions@),
            low(ops(code@)),
            "main"@,
        ),
{
    if functions.len() > usize::MAX - FIRST_FUNCTION {
        return None;
    }
    let mut unit = assembler_new();
    declare_imports(&mut unit, functions);
    let mut labels: Vec<usize> = Vec::new();
    let mut strings: Vec<Vec<u8>> = Vec::new();
    let ghost m0 = sequences(unit);
    proof {
        assert(texts(strings@) =~= Seq::<Seq<u8>>::empty());
        assert(ints(labels@) =~= Seq::<int>::empty());
    }
    if !lower_seq(&mut unit, functions.len(), &mut labels, &mut strings, 0, code) {
        return None;
    }
    proof {
        let m1 = sequences(unit);
        assert(m1[0].is_empty()) by {
            assert forall|t: int| !m1[0].contains(t) by {
                if m1[0].contains(t) {
                    assert(m0[0].contains(t) || is_label(labels@, t));
                }
            }
        }
        assert(m1[0] =~= Set::<int>::empty());
        assert(m1 =~= empty_function());
        lemma_ops(code@);
        let items = contents(unit)[0].items;
        assert(items.skip(0) =~= items);
    }
    let wasm = emit_wasm(unit, "main");
    Some(BinaryModule { wasm, strings })
}

} // verus!

