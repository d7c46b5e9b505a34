//! The identifier pool: every identifier of a rule set is stored once and
//! is known by a small integer handle.
use vstd::prelude::*;
use string_interner::symbol::SymbolU32;
use string_interner::{DefaultBackend, StringInterner, Symbol};

verus! {

/// Handle of an identifier in the pool.
pub type IdentId = u32;

/// The number of identifiers that a pool can hold.
pub const POOL_CAPACITY: usize = 0xffff_ffff;

/// A `string_interner::StringInterner` with the default backend and 32-bit
/// symbols. Its contents are known to the verifier only as `interned`.
#[verifier::external_body]
pub struct Interner {
    inner: StringInterner<DefaultBackend<SymbolU32>>,
}

/// The strings that an interner holds, each at the index that its symbol
/// stands for.
pub uninterp spec fn interned(pool: Interner) -> Seq<Seq<char>>;

/// `StringInterner::new`: an interner that holds no string.
#[verifier::external_body]
fn interner_new() -> (r: Interner)
    ensures
        interned(r) == Seq::<Seq<char>>::empty(),
{
    Interner { inner: StringInterner::new() }
}

/// `StringInterner::len`: the number of strings held.
#[verifier::external_body]
fn interner_len(pool: &Interner) -> (n: usize)
    ensures
        n == interned(*pool).len(),
{
    pool.inner.len()
}

/// `StringInterner::get_or_intern`, the symbol taken as its index
/// (`Symbol::to_usize`). A string that the interner holds keeps its index
/// and nothing changes; any other string is appended and gets the next
/// index. The interner fails when it has run out of symbols, so there
/// must be room for one more string.
#[verifier::external_body]
fn interner_get_or_intern(pool: &mut Interner, string: &str) -> (id: u32)
    requires
        interned(*old(pool)).len() < POOL_CAPACITY,
    ensures
        id < interned(*final(pool)).len(),
        interned(*final(pool))[id as int] == string@,
        interned(*old(pool)).contains(string@) ==> interned(*final(pool)) == interned(*old(pool)),
        !interned(*old(pool)).contains(string@) ==> interned(*final(pool)) == interned(
            *old(pool),
        ).push(string@),
{
    pool.inner.get_or_intern(string).to_usize() as u32
}

/// `StringInterner::resolve` on the symbol with the given index
/// (`Symbol::try_from_usize`): the string at that index, or nothing where
/// the interner holds no such index.
#[verifier::external_body]
fn interner_resolve(pool: &Interner, id: u32) -> (r: Option<&str>)
    ensures
        id < interned(*pool).len() ==> r.is_some() && r.unwrap()@ == interned(*pool)[id as int],
        id >= interned(*pool).len() ==> r.is_none(),
{
    match SymbolU32::try_from_usize(id as usize) {
        Some(symbol) => pool.inner.resolve(symbol),
        None => None,
    }
}

/// Whether no string occurs twice in `strings`.
pub open spec fn distinct(strings: Seq<Seq<char>>) -> bool {
    forall|i: int, j: int|
        0 <= i < strings.len() && 0 <= j < strings.len() && #[trigger] strings[i]
            == #[trigger] strings[j] ==> i == j
}

/// The index of `string` in `strings`, where it occurs.
pub open spec fn position(strings: Seq<Seq<char>>, string: Seq<char>) -> int {
    choose|i: int| 0 <= i < strings.len() && strings[i] == string
}

/// The contents of a pool after `string` was interned in it.
pub open spec fn interned_with(strings: Seq<Seq<char>>, string: Seq<char>) -> Seq<Seq<char>> {
    if strings.contains(string) {
        strings
    } else {
        strings.push(string)
    }
}

/// The handle that interning `string` gives in a pool that holds `strings`.
pub open spec fn handle_of(strings: Seq<Seq<char>>, string: Seq<char>) -> int {
    if strings.contains(string) {
        position(strings, string)
    } else {
        strings.len() as int
    }
}

/// The pool of identifiers. Each identifier has one handle, the index at
/// which the pool holds it; handles are dense and are never taken back.
pub struct IdentPool {
    interner: Interner,
}

impl View for IdentPool {
    type V = Seq<Seq<char>>;

    closed spec fn view(&self) -> Seq<Seq<char>> {
        interned(self.interner)
    }
}

impl IdentPool {
    /// The invariant of a pool: no identifier is held twice, and every
    /// index is a handle.
    pub open spec fn wf(&self) -> bool {
        distinct(self@) && self@.len() <= POOL_CAPACITY
    }

    /// An empty pool.
    pub fn new() -> (pool: Self)
        ensures
            pool.wf(),
            pool@.len() == 0,
    {
        IdentPool { interner: interner_new() }
    }

    /// The number of identifiers in the pool.
    pub fn len(&self) -> (n: usize)
        ensures
            n == self@.len(),
    {
        interner_len(&self.interner)
    }

    /// Returns the handle of `text`, which is added to the pool if it is
    /// not there yet.
    pub fn intern(&mut self, text: &str) -> (id: IdentId)
        requires
            old(self).wf(),
            old(self)@.len() < POOL_CAPACITY,
        ensures
            final(self).wf(),
            final(self)@ == interned_with(old(self)@, text@),
            id == handle_of(old(self)@, text@),
            id < final(self)@.len(),
            final(self)@[id as int] == text@,
    {
        let id = interner_get_or_intern(&mut self.interner, text);
        proof {
            let before = old(self)@;
            let after = self@;
            if before.contains(text@) {
                let p = position(before, text@);
                assert(before[p] == text@);
            } else {
                assert forall|i: int, j: int|
                    0 <= i < after.len() && 0 <= j < after.len() && #[trigger] after[i]
                        == #[trigger] after[j] implies i == j by {
                    if i < before.len() {
                        assert(before[i] == after[i]);
                        assert(before.contains(after[i]));
                    }
                    if j < before.len() {
                        assert(before[j] == after[j]);
                        assert(before.contains(after[j]));
                    }
                }
            }
        }
        id
    }

    /// The identifier with the given handle. Only handles that `intern`
    /// has returned for this pool have one.
    pub fn resolve(&self, id: IdentId) -> (text: &str)
        requires
            id < self@.len(),
        ensures
            text@ == self@[id as int],
    {
        match interner_resolve(&self.interner, id) {
            Some(text) => text,
            None => {
                proof {
                    assert(false);
                }
                ""
            },
        }
    }

    /// The identifier with the given handle, or `None` for a number that
    /// is no handle of this pool.
    pub fn get(&self, id: IdentId) -> (text: Option<&str>)
        ensures
            text.is_some() == (id < self@.len()),
            text.is_some() ==> text.unwrap()@ == self@[id as int],
    {
        interner_resolve(&self.interner, id)
    }
}

/// Interning is idempotent: a second call with the same text returns the
/// same handle and leaves the pool as the first call left it, and the
/// handle resolves to the text.
pub proof fn lemma_intern_idempotent(strings: Seq<Seq<char>>, text: Seq<char>)
    requires
        distinct(strings),
    ensures
        ({
            let once = interned_with(strings, text);
            let twice = interned_with(once, text);
            &&& twice == once
            &&& handle_of(once, text) == handle_of(strings, text)
            &&& 0 <= handle_of(strings, text) < once.len()
            &&& once[handle_of(strings, text)] == text
            &&& distinct(once)
        }),
{
    let once = interned_with(strings, text);
    if strings.contains(text) {
        let p = position(strings, text);
        assert(strings[p] == text);
    } else {
        assert(once[strings.len() as int] == text);
        assert(once.contains(text));
        let q = position(once, text);
        assert(once[q] == text);
        if q < strings.len() {
            assert(strings[q] == text);
            assert(strings.contains(text));
        }
        assert forall|i: int, j: int|
            0 <= i < once.len() && 0 <= j < once.len() && #[trigger] once[i]
                == #[trigger] once[j] implies i == j by {
            if i < strings.len() {
                assert(strings[i] == once[i]);
                assert(strings.contains(once[i]));
            }
            if j < strings.len() {
                assert(strings[j] == once[j]);
                assert(strings.contains(once[j]));
            }
        }
    }
}

} // verus!
