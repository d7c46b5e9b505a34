//! Symbol tables: the names that a condition can use, each with its type
//! and, where it is known when the rules are compiled, its value.
use vstd::prelude::*;
use std::rc::Rc;
use crate::ast::Type;

verus! {

/// One way to call a function: the types of its arguments, the type of its
/// result, and the number under which the host provides it.
#[derive(Debug, PartialEq, Eq)]
pub struct FuncSignature {
    pub args: Vec<Type>,
    pub result: Type,
    pub func_id: u32,
}

/// What a name stands for: a value of one of the four scalar types, which
/// is either known already or undefined, a structure with fields of its
/// own, or a function with the ways to call it.
#[derive(Debug, PartialEq, Eq)]
pub enum TypeValue {
    Bool(Option<bool>),
    Integer(Option<i64>),
    /// The bits of a 64-bit floating-point number.
    Float(Option<u64>),
    String(Option<Vec<u8>>),
    Struct(Rc<SymbolTable>),
    Func(Vec<FuncSignature>),
}

impl TypeValue {
    /// The type of the value.
    pub open spec fn ty_spec(&self) -> Type {
        match self {
            TypeValue::Bool(_) => Type::Bool,
            TypeValue::Integer(_) => Type::Integer,
            TypeValue::Float(_) => Type::Float,
            TypeValue::String(_) => Type::String,
            TypeValue::Struct(_) => Type::Struct,
            TypeValue::Func(_) => Type::Func,
        }
    }

    /// The type of the value.
    pub fn ty(&self) -> (t: Type)
        ensures
            t == self.ty_spec(),
    {
        match self {
            TypeValue::Bool(_) => Type::Bool,
            TypeValue::Integer(_) => Type::Integer,
            TypeValue::Float(_) => Type::Float,
            TypeValue::String(_) => Type::String,
            TypeValue::Struct(_) => Type::Struct,
            TypeValue::Func(_) => Type::Func,
        }
    }
}

/// A name and what it stands for.
#[derive(Debug, PartialEq, Eq)]
pub struct Symbol {
    pub name: String,
    pub value: TypeValue,
}

/// Whether the two strings are the same text.
pub fn same_text(a: &str, b: &str) -> (r: bool)
    ensures
        r == (a@ == b@),
{
    let x = a.to_owned();
    let y = b.to_owned();
    x == y
}

/// Whether `i` is the first index at which `symbols` holds `name`.
pub open spec fn is_first(symbols: Seq<Symbol>, name: Seq<char>, i: int) -> bool {
    &&& 0 <= i < symbols.len()
    &&& symbols[i].name@ == name
    &&& forall|j: int| 0 <= j < i ==> (#[trigger] symbols[j]).name@ != name
}

/// The index of the symbol that `name` resolves to, if there is one.
pub open spec fn find(symbols: Seq<Symbol>, name: Seq<char>) -> Option<int> {
    if exists|i: int| is_first(symbols, name, i) {
        Some(choose|i: int| is_first(symbols, name, i))
    } else {
        None
    }
}

/// The only first index is the first index.
pub proof fn lemma_find_first(symbols: Seq<Symbol>, name: Seq<char>, i: int)
    requires
        is_first(symbols, name, i),
    ensures
        find(symbols, name) == Some(i),
{
    let c = choose|c: int| is_first(symbols, name, c);
    if c < i {
        assert(symbols[c].name@ != name);
    }
    if i < c {
        assert(symbols[i].name@ != name);
    }
}

/// No symbol has the name: the name does not resolve.
pub proof fn lemma_find_none(symbols: Seq<Symbol>, name: Seq<char>)
    requires
        forall|j: int| 0 <= j < symbols.len() ==> (#[trigger] symbols[j]).name@ != name,
    ensures
        find(symbols, name).is_none(),
{
}

/// Anything that has named members. The type checker and the code
/// generator resolve names through this interface alone.
pub trait SymbolLookup {
    /// What `name` stands for here, if anything.
    spec fn lookup_spec(&self, name: Seq<char>) -> Option<TypeValue>;

    /// Looks `name` up.
    fn lookup(&self, name: &str) -> (r: Option<&TypeValue>)
        ensures
            match r {
                Some(v) => self.lookup_spec(name@) == Some(*v),
                None => self.lookup_spec(name@).is_none(),
            },
    ;
}

/// A table of symbols. A name resolves to the entry that holds it; tables
/// that `new` and `insert` build hold no name twice.
#[derive(Debug, PartialEq, Eq)]
pub struct SymbolTable {
    symbols: Vec<Symbol>,
}

impl View for SymbolTable {
    type V = Seq<Symbol>;

    closed spec fn view(&self) -> Seq<Symbol> {
        self.symbols@
    }
}

impl SymbolTable {
    /// Whether no two entries have the same name.
    pub open spec fn wf(&self) -> bool {
        forall|i: int, j: int|
            0 <= i < self@.len() && 0 <= j < self@.len() && (#[trigger] self@[i]).name@ == (
            #[trigger] self@[j]).name@ ==> i == j
    }

    /// What `name` stands for in this table.
    pub open spec fn get(&self, name: Seq<char>) -> Option<TypeValue> {
        match find(self@, name) {
            Some(i) => Some(self@[i].value),
            None => None,
        }
    }

    /// An empty table.
    pub fn new() -> (t: Self)
        ensures
            t@.len() == 0,
            t.wf(),
            forall|name: Seq<char>| t.get(name).is_none(),
    {
        let t = SymbolTable { symbols: Vec::new() };
        proof {
            assert forall|name: Seq<char>| t.get(name).is_none() by {
                lemma_find_none(t@, name);
            }
        }
        t
    }

    /// The index of the entry for `name`.
    fn position(&self, name: &str) -> (r: Option<usize>)
        ensures
            match r {
                Some(i) => find(self@, name@) == Some(i as int) && i < self@.len(),
                None => find(self@, name@).is_none(),
            },
    {
        let mut i: usize = 0;
        while i < self.symbols.len()
            invariant
                0 <= i <= self@.len(),
                forall|j: int| 0 <= j < i ==> (#[trigger] self@[j]).name@ != name@,
            decreases self@.len() - i,
        {
            if same_text(self.symbols[i].name.as_str(), name) {
                proof {
                    lemma_find_first(self@, name@, i as int);
                }
                return Some(i);
            }
            i = i + 1;
        }
        proof {
            lemma_find_none(self@, name@);
        }
        None
    }

    /// Binds `name` to `value`. A binding that the table had for the name
    /// is replaced; every other name keeps what it stood for.
    pub fn insert(&mut self, name: &str, value: TypeValue)
        requires
            old(self).wf(),
        ensures
            final(self).wf(),
            final(self).get(name@) == Some(value),
            forall|other: Seq<char>| other != name@ ==> final(self).get(other) == old(self).get(other),
            final(self).as_map() == old(self).as_map().insert(name@, value),
            old(self).get(name@).is_some() ==> final(self)@.len() == old(self)@.len(),
            old(self).get(name@).is_none() ==> final(self)@.len() == old(self)@.len() + 1,
    {
        let entry = Symbol { name: name.to_owned(), value };
        let ghost before = self@;
        self.put(name, entry);
        proof {
            assert(self.as_map() =~= old(self).as_map().insert(name@, value));
        }
    }

    /// Puts `entry` in the place of the entry of its name, or at the end
    /// where there is none.
    fn put(&mut self, name: &str, entry: Symbol)
        requires
            old(self).wf(),
            entry.name@ == name@,
        ensures
            final(self).wf(),
            final(self).get(name@) == Some(entry.value),
            forall|other: Seq<char>| other != name@ ==> final(self).get(other) == old(self).get(other),
            old(self).get(name@).is_some() ==> final(self)@.len() == old(self)@.len(),
            old(self).get(name@).is_none() ==> final(self)@.len() == old(self)@.len() + 1,
    {
        let ghost before = self@;
        match self.position(name) {
            Some(i) => {
                self.symbols.set(i, entry);
                proof {
                    let after = self@;
                    lemma_find_first(after, name@, i as int);
                    assert forall|other: Seq<char>| other != name@ implies self.get(other)
                        == old(self).get(other) by {
                        lemma_same_names(before, after, other, i as int);
                    }
                }
            },
            None => {
                self.symbols.push(entry);
                proof {
                    let after = self@;
                    let n = before.len() as int;
                    assert forall|j: int| 0 <= j < n implies (#[trigger] after[j]).name@
                        != name@ by {
                        if before[j].name@ == name@ {
                            lemma_has_first(before, name@, j);
                        }
                    }
                    lemma_find_first(after, name@, n);
                    assert forall|other: Seq<char>| other != name@ implies self.get(other)
                        == old(self).get(other) by {
                        lemma_pushed(before, after, other);
                    }
                    assert forall|i: int, j: int|
                        0 <= i < after.len() && 0 <= j < after.len() && (#[trigger] after[i]).name@
                            == (#[trigger] after[j]).name@ implies i == j by {
                        if i < n && j < n {
                            assert(before[i].name@ == before[j].name@);
                        }
                    }
                }
            },
        }
    }

    /// The table as a map from the names that it holds to what they
    /// stand for.
    pub open spec fn as_map(&self) -> Map<Seq<char>, TypeValue> {
        Map::new(|name: Seq<char>| self.get(name).is_some(), |name: Seq<char>| self.get(name).unwrap())
    }

    /// The number of names in the table.
    pub fn len(&self) -> (n: usize)
        ensures
            n == self@.len(),
    {
        self.symbols.len()
    }
}

impl SymbolLookup for SymbolTable {
    open spec fn lookup_spec(&self, name: Seq<char>) -> Option<TypeValue> {
        self.get(name)
    }

    fn lookup(&self, name: &str) -> (r: Option<&TypeValue>) {
        match self.position(name) {
            Some(i) => Some(&self.symbols[i].value),
            None => None,
        }
    }
}

/// The table behind an optional reference.
pub open spec fn scope_of(scope: Option<&SymbolTable>) -> Option<SymbolTable> {
    match scope {
        Some(t) => Some(*t),
        None => None,
    }
}

/// What `name` stands for with the top-level symbols `root`: where there
/// is a scope that overrides them, what it stands for there and nothing
/// else.
pub open spec fn scoped_get(
    root: Map<Seq<char>, TypeValue>,
    scope_override: Option<SymbolTable>,
    name: Seq<char>,
) -> Option<TypeValue> {
    match scope_override {
        Some(t) => t.get(name),
        None => if root.contains_key(name) {
            Some(root[name])
        } else {
            None
        },
    }
}

/// Looks `name` up in `scope_override` where there is one, and among the
/// top-level symbols where there is none.
pub fn lookup<'a>(
    root: &'a SymbolTable,
    scope_override: Option<&'a SymbolTable>,
    name: &str,
) -> (r: Option<&'a TypeValue>)
    ensures
        match r {
            Some(v) => scoped_get(root.as_map(), scope_of(scope_override), name@) == Some(*v),
            None => scoped_get(root.as_map(), scope_of(scope_override), name@).is_none(),
        },
{
    match scope_override {
        Some(t) => t.lookup(name),
        None => root.lookup(name),
    }
}

/// A name that occurs has a first occurrence.
pub proof fn lemma_has_first(symbols: Seq<Symbol>, name: Seq<char>, j: int)
    requires
        0 <= j < symbols.len(),
        symbols[j].name@ == name,
    ensures
        exists|i: int| is_first(symbols, name, i),
    decreases j,
{
    if forall|k: int| 0 <= k < j ==> (#[trigger] symbols[k]).name@ != name {
        assert(is_first(symbols, name, j));
    } else {
        let k = choose|k: int| 0 <= k < j && (#[trigger] symbols[k]).name@ == name;
        lemma_has_first(symbols, name, k);
    }
}

/// Replacing the entry at `at` by one of the same name changes what no
/// other name resolves to.
proof fn lemma_same_names(before: Seq<Symbol>, after: Seq<Symbol>, other: Seq<char>, at: int)
    requires
        0 <= at < before.len(),
        after.len() == before.len(),
        forall|j: int| 0 <= j < before.len() && j != at ==> after[j] == before[j],
        after[at].name@ == before[at].name@,
        other != before[at].name@,
    ensures
        find(after, other) == find(before, other),
        find(before, other).is_some() ==> after[find(before, other).unwrap()]
            == before[find(before, other).unwrap()],
{
    if exists|i: int| is_first(before, other, i) {
        let i = choose|i: int| is_first(before, other, i);
        assert forall|j: int| 0 <= j < i implies (#[trigger] after[j]).name@ != other by {
            assert(before[j].name@ != other);
        }
        assert(is_first(after, other, i));
        lemma_find_first(after, other, i);
    } else {
        if exists|i: int| is_first(after, other, i) {
            let i = choose|i: int| is_first(after, other, i);
            assert forall|j: int| 0 <= j < i implies (#[trigger] before[j]).name@ != other by {
                assert(after[j].name@ != other);
            }
            assert(is_first(before, other, i));
        }
    }
}

/// Appending an entry changes what no other name resolves to.
proof fn lemma_pushed(before: Seq<Symbol>, after: Seq<Symbol>, other: Seq<char>)
    requires
        after.len() == before.len() + 1,
        forall|j: int| 0 <= j < before.len() ==> after[j] == before[j],
        other != after[before.len() as int].name@,
    ensures
        find(after, other) == find(before, other),
        find(before, other).is_some() ==> after[find(before, other).unwrap()]
            == before[find(before, other).unwrap()],
{
    if exists|i: int| is_first(before, other, i) {
        let i = choose|i: int| is_first(before, other, i);
        assert forall|j: int| 0 <= j < i implies (#[trigger] after[j]).name@ != other by {
            assert(before[j].name@ != other);
        }
        assert(is_first(after, other, i));
        lemma_find_first(after, other, i);
    } else {
        if exists|i: int| is_first(after, other, i) {
            let i = choose|i: int| is_first(after, other, i);
            assert forall|j: int| 0 <= j < i implies (#[trigger] before[j]).name@ != other by {
                assert(after[j].name@ != other);
            }
            assert(is_first(before, other, i));
        }
    }
}

} // verus!
