use yara_x::ident_pool::IdentPool;

#[test]
fn interning_twice_gives_the_same_handle() {
    let mut pool = IdentPool::new();
    let a = pool.intern("$a");
    let b = pool.intern("rule_1");
    assert_eq!(pool.intern("$a"), a);
    assert_eq!(pool.intern("rule_1"), b);
    assert_ne!(a, b);
    assert_eq!(pool.len(), 2);
}

#[test]
fn handles_are_dense() {
    let mut pool = IdentPool::new();
    assert_eq!(pool.len(), 0);
    assert_eq!(pool.intern("zero"), 0);
    assert_eq!(pool.intern("one"), 1);
    assert_eq!(pool.intern("zero"), 0);
    assert_eq!(pool.intern("two"), 2);
    assert_eq!(pool.intern(""), 3);
    assert_eq!(pool.len(), 4);
}

#[test]
fn a_handle_resolves_to_its_text() {
    let mut pool = IdentPool::new();
    let names = ["$a", "$b", "rule", "", "$a", "другое"];
    for name in names {
        let id = pool.intern(name);
        assert_eq!(pool.resolve(id), name);
    }
    assert_eq!(pool.resolve(0), "$a");
    assert_eq!(pool.resolve(1), "$b");
    assert_eq!(pool.resolve(3), "");
    assert_eq!(pool.resolve(4), "другое");
}

#[test]
fn get_knows_the_handles_of_the_pool() {
    let mut pool = IdentPool::new();
    assert_eq!(pool.get(0), None);
    let id = pool.intern("x");
    assert_eq!(pool.get(id), Some("x"));
    assert_eq!(pool.get(id + 1), None);
    assert_eq!(pool.get(u32::MAX), None);
}
