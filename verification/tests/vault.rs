use symboscript::value::Value;
use symboscript::vault::{FrameKind, ScopeValue, Vault, VaultError};

fn name(s: &str) -> String {
    s.to_owned()
}

#[test]
fn a_new_record_is_empty() {
    let record = ScopeValue::new();
    assert_eq!(record.len(), 0);
    assert_eq!(record.owned(), 0);
    assert!(record.lookup(&name("x")).is_none());
    assert_eq!(record.label_text(), "");
}

#[test]
fn a_record_binds_each_name_once() {
    let mut record = ScopeValue::named(name("r"));
    record.bind(name("a"), Value::Number(1));
    record.bind(name("b"), Value::Number(2));
    record.bind(name("a"), Value::Number(3));
    assert_eq!(record.len(), 2);
    assert!(matches!(record.lookup(&name("a")), Some(Value::Number(3))));
    assert_eq!(record.entry(0).name, "a");
    assert_eq!(record.entry(1).name, "b");
    record.unbind(&name("a"));
    assert_eq!(record.len(), 1);
    assert!(record.lookup(&name("a")).is_none());
    record.unbind(&name("zzz"));
    assert_eq!(record.len(), 1);
    assert_eq!(record.label_text(), "r");
}

#[test]
fn lookups_go_from_the_innermost_scope_outwards() {
    let mut vault = Vault::new();
    let outer = vault.enter_block();
    vault.declare_variable(name("x"), Value::Number(1)).unwrap();
    vault.declare_variable(name("y"), Value::Number(2)).unwrap();
    let inner = vault.enter_block();
    vault.declare_variable(name("x"), Value::Number(10)).unwrap();
    assert!(matches!(vault.resolve(&name("x")), Some(Value::Number(10))));
    assert!(matches!(vault.resolve(&name("y")), Some(Value::Number(2))));
    assert!(vault.resolve(&name("z")).is_none());
    assert_eq!(vault.holder_of(&name("x")), Some(inner));
    assert_eq!(vault.holder_of(&name("y")), Some(outer));
    assert!(vault.assign(name("y"), Value::Number(20)));
    assert!(!vault.assign(name("z"), Value::Number(0)));
    vault.exit_block().unwrap();
    assert!(matches!(vault.resolve(&name("x")), Some(Value::Number(1))));
    assert!(matches!(vault.resolve(&name("y")), Some(Value::Number(20))));
    assert_eq!(vault.current_scope(), Some(outer));
    assert_eq!(vault.depth(), 1);
    assert_eq!(vault.frame(0).kind, FrameKind::Block);
}

#[test]
fn two_activations_do_not_share_bindings() {
    let mut vault = Vault::new();
    vault.enter_block();
    let first = vault.enter_block();
    vault.declare_variable(name("x"), Value::Number(1)).unwrap();
    let second = vault.enter_block();
    vault.declare_variable(name("x"), Value::Number(2)).unwrap();
    assert_ne!(first, second);
    assert!(matches!(vault.get_in(first, &name("x")), Ok(Some(Value::Number(1)))));
    assert!(matches!(vault.get_in(second, &name("x")), Ok(Some(Value::Number(2)))));
    vault.exit_block().unwrap();
    assert!(matches!(vault.resolve(&name("x")), Some(Value::Number(1))));
}

#[test]
fn exiting_a_block_deletes_what_it_owns() {
    let mut vault = Vault::new();
    let global = vault.enter_block();
    let block = vault.enter_block();
    let child = vault.declare_named_scope(name("child"));
    let grandchild = vault.declare_named_scope(name("grandchild"));
    vault.declare_variable(name("deep"), Value::Number(1)).unwrap();
    assert_eq!(vault.end_declaration(), Ok(grandchild));
    assert_eq!(vault.end_declaration(), Ok(child));
    assert!(matches!(vault.resolve(&name("child")), Some(Value::ScopeRef(h)) if *h == child));
    assert_eq!(vault.record(block).unwrap().owned_at(0), child);
    assert_eq!(vault.record(child).unwrap().owned_at(0), grandchild);
    assert!(vault.is_live(child) && vault.is_live(grandchild));
    // a handle kept in a scope that lives on
    vault.set_in(global, name("kept"), Value::ScopeRef(grandchild)).unwrap();
    vault.exit_block().unwrap();
    assert!(!vault.is_live(block));
    assert!(!vault.is_live(child));
    assert!(!vault.is_live(grandchild));
    assert!(vault.is_live(global));
    assert!(vault.resolve(&name("child")).is_none());
    assert!(matches!(
        vault.get_in(grandchild, &name("deep")),
        Err(VaultError::StaleHandle)
    ));
    assert_eq!(vault.enter_named_scope(grandchild), Err(VaultError::StaleHandle));
    assert_eq!(
        vault.set_in(child, name("x"), Value::Nil),
        Err(VaultError::StaleHandle)
    );
    assert_eq!(vault.remove_in(child, &name("x")), Err(VaultError::StaleHandle));
}

#[test]
fn a_deleted_handle_never_comes_back() {
    let mut vault = Vault::new();
    vault.enter_block();
    let old = vault.enter_block();
    vault.exit_block().unwrap();
    for _ in 0..100 {
        let fresh = vault.enter_block();
        assert_ne!(fresh, old);
        assert!(!vault.is_live(old));
        assert!(vault.is_live(fresh));
        // the slot is used again, under a new generation
        assert_eq!(fresh.index, old.index);
        assert!(fresh.generation > old.generation);
        vault.exit_block().unwrap();
    }
}

#[test]
fn a_named_scope_can_be_entered_through_its_handle() {
    let mut vault = Vault::new();
    let global = vault.enter_block();
    let scope = vault.declare_named_scope(name("s"));
    vault.declare_variable(name("inside"), Value::Bool(true)).unwrap();
    vault.end_declaration().unwrap();
    assert!(vault.resolve(&name("inside")).is_none());
    vault.enter_named_scope(scope).unwrap();
    assert!(matches!(vault.resolve(&name("inside")), Some(Value::Bool(true))));
    assert_eq!(vault.frame(1).kind, FrameKind::Entered);
    assert_eq!(vault.exit_block(), Err(VaultError::NotABlock));
    assert_eq!(vault.end_declaration(), Err(VaultError::NotADeclaration));
    assert_eq!(vault.exit_named_scope(), Ok(scope));
    assert!(vault.is_live(scope));
    assert_eq!(vault.exit_named_scope(), Err(VaultError::NotEntered));
    assert_eq!(vault.current_scope(), Some(global));
}

#[test]
fn the_vault_refuses_what_has_no_scope_to_work_on() {
    let mut vault = Vault::new();
    assert_eq!(vault.exit_block(), Err(VaultError::NoActiveScope));
    assert_eq!(vault.end_declaration(), Err(VaultError::NoActiveScope));
    assert_eq!(vault.exit_named_scope(), Err(VaultError::NoActiveScope));
    assert_eq!(
        vault.declare_variable(name("x"), Value::Nil),
        Err(VaultError::NoActiveScope)
    );
    assert_eq!(vault.current_scope(), None);
    let lonely = vault.declare_named_scope(name("lonely"));
    assert_eq!(vault.end_declaration(), Err(VaultError::NoActiveScope));
    assert!(vault.is_live(lonely));
    vault.unwind(0);
    assert!(!vault.is_live(lonely));
    assert_eq!(vault.depth(), 0);
}

#[test]
fn unwinding_removes_the_frames_above_a_depth() {
    let mut vault = Vault::new();
    let a = vault.enter_block();
    let b = vault.enter_block();
    let c = vault.declare_named_scope(name("c"));
    vault.enter_named_scope(a).unwrap();
    vault.unwind(1);
    assert_eq!(vault.depth(), 1);
    assert!(vault.is_live(a));
    assert!(!vault.is_live(b));
    assert!(!vault.is_live(c));
    vault.unwind(5);
    assert_eq!(vault.depth(), 1);
}
