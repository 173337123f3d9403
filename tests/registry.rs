use session_engine::registry::{RegistryError, SessionRegistry};

#[test]
fn duplicate_registration_fails_and_keeps_first() {
    let mut r: SessionRegistry<u32> = SessionRegistry::new();
    assert_eq!(r.register("a".to_string(), 1), Ok(()));
    assert_eq!(r.register("a".to_string(), 2), Err(RegistryError::AlreadyExists));
    assert_eq!(r.get(&"a".to_string()), Some(&1));
    assert_eq!(r.len(), 1);
}

#[test]
fn remove_get_and_ids() {
    let mut r: SessionRegistry<&str> = SessionRegistry::new();
    r.register("x".to_string(), "one").unwrap();
    r.register("y".to_string(), "two").unwrap();
    r.register("z".to_string(), "three").unwrap();
    assert_eq!(r.ids(), vec!["x".to_string(), "y".to_string(), "z".to_string()]);
    assert_eq!(r.remove(&"y".to_string()), Some("two"));
    assert_eq!(r.remove(&"y".to_string()), None);
    assert!(!r.contains(&"y".to_string()));
    assert_eq!(r.get(&"z".to_string()), Some(&"three"));
    assert_eq!(r.ids(), vec!["x".to_string(), "z".to_string()]);
}

#[test]
fn get_mut_changes_in_place() {
    let mut r: SessionRegistry<Vec<u8>> = SessionRegistry::new();
    r.register("s".to_string(), vec![1]).unwrap();
    r.get_mut(&"s".to_string()).unwrap().push(2);
    assert_eq!(r.get(&"s".to_string()), Some(&vec![1, 2]));
    assert!(r.get_mut(&"t".to_string()).is_none());
}
