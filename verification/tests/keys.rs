use keru::{Id, KeyScopes, NodeKey, StateId, StateKey};

#[test]
fn sibling_key_hashes_id_and_value() {
    let key = NodeKey::new(Id(1), "button");
    let sib = key.sibling(2);
    assert_eq!(sib.id, Id(455070358863235780));
    assert_eq!(sib.debug_name, "button");
    assert_ne!(key.sibling(3).id, sib.id);
    assert_eq!(key.sibling(2).id, sib.id);
}

#[test]
fn sibling_state_key_uses_the_same_hash() {
    let key: StateKey<u32> = StateKey::new(StateId(42), "counter");
    let sib = key.sibling(7);
    assert_eq!(sib.id, StateId(5291772571822058567));
    assert_eq!(sib.debug_name(), "counter");
}

#[test]
fn key_scopes_resolve_and_restore() {
    let mut scopes = KeyScopes::new();
    assert_eq!(scopes.last_scope(), None);
    assert_eq!(scopes.id_with_key_scope(Id(0)), Id(0));
    scopes.push(Id(100));
    assert_eq!(scopes.last_scope(), Some(Id(100)));
    assert_eq!(scopes.id_with_key_scope(Id(0)), Id(12003541609544029302));
    scopes.pop();
    assert_eq!(scopes.last_scope(), None);
    assert_eq!(scopes.id_with_key_scope(Id(5)), Id(5));
    scopes.pop();
    assert_eq!(scopes.stack.len(), 0);
}

#[test]
fn typed_key_accessors() {
    let key = NodeKey::new(Id(9), "nine");
    assert_eq!(key.id(), Id(9));
    assert_eq!(key.debug_name(), "nine");
    let copy = key.clone();
    assert_eq!(copy.id, key.id);
}

#[test]
fn named_scope_resolves_the_same_everywhere() {
    let mut a = KeyScopes::new();
    a.push(Id(7));
    a.push(Id(100));
    let mut b = KeyScopes::new();
    b.push(Id(100));
    assert_eq!(a.id_with_key_scope(Id(0)), b.id_with_key_scope(Id(0)));
    assert_eq!(a.id_with_key_scope(Id(0)), Id(12003541609544029302));
}
