use akash::store::{AliasNameError, AliasStore};

#[test]
fn given_nothing_when_creating_new_store_then_it_is_empty() {
    let store = AliasStore::new_store();
    assert!(store.is_empty());
}

#[test]
fn given_empty_store_when_adding_alias_then_returns_true() {
    let mut store = AliasStore::new_store();
    let result = store.add_alias("gs".into(), "git status".into());
    assert!(result);
}

#[test]
fn given_existing_alias_when_adding_same_name_then_returns_false() {
    let mut store = AliasStore::new_store();
    store.add_alias("gs".into(), "git status".into());
    let result = store.add_alias("gs".into(), "git stash".into());
    assert!(!result);
}

#[test]
fn given_existing_alias_when_adding_same_name_then_command_is_updated() {
    let mut store = AliasStore::new_store();
    store.add_alias("gs".into(), "git status".into());
    store.add_alias("gs".into(), "git stash".into());
    assert_eq!(store.get("gs").unwrap(), "git stash");
}

#[test]
fn given_existing_alias_when_removing_it_then_returns_true_and_store_is_empty() {
    let mut store = AliasStore::new_store();
    store.add_alias("gs".into(), "git status".into());
    let result = store.remove_alias("gs");
    assert!(result);
    assert!(store.is_empty());
}

#[test]
fn given_empty_store_when_removing_alias_then_returns_false() {
    let mut store = AliasStore::new_store();
    let result = store.remove_alias("nonexistent");
    assert!(!result);
}

#[test]
fn given_existing_alias_when_checking_has_key_then_returns_true() {
    let mut store = AliasStore::new_store();
    store.add_alias("gs".into(), "git status".into());
    let result = store.has_key("gs");
    assert!(result);
}

#[test]
fn given_empty_store_when_checking_has_key_then_returns_false() {
    let store = AliasStore::new_store();
    let result = store.has_key("nope");
    assert!(!result);
}

#[test]
fn given_two_aliases_when_listing_then_returns_both_with_correct_values() {
    let mut store = AliasStore::new_store();
    store.add_alias("a".into(), "alpha".into());
    store.add_alias("b".into(), "bravo".into());
    let list = store.list_aliases();
    let value_of = |k: &str| list.iter().find(|(n, _)| n == k).map(|(_, c)| c.clone());
    assert_eq!(list.len(), 2);
    assert_eq!(value_of("a").unwrap(), "alpha");
    assert_eq!(value_of("b").unwrap(), "bravo");
}

#[test]
fn given_unordered_aliases_when_listing_then_keys_are_sorted() {
    let mut store = AliasStore::new_store();
    store.add_alias("z".into(), "zulu".into());
    store.add_alias("a".into(), "alpha".into());
    store.add_alias("m".into(), "mike".into());
    let keys: Vec<&String> = store.list_aliases().iter().map(|(k, _)| k).collect();
    assert_eq!(keys, vec!["a", "m", "z"]);
}

#[test]
fn given_valid_names_when_validating_then_all_pass() {
    assert!(AliasStore::validate_alias_name("gs").is_ok());
    assert!(AliasStore::validate_alias_name("my-alias").is_ok());
    assert!(AliasStore::validate_alias_name("my_alias").is_ok());
    assert!(AliasStore::validate_alias_name("alias123").is_ok());
}

#[test]
fn given_empty_name_when_validating_then_returns_error() {
    let name = "";
    let result = AliasStore::validate_alias_name(name);
    assert!(result.is_err());
}

#[test]
fn given_names_with_invalid_chars_when_validating_then_returns_error() {
    assert!(AliasStore::validate_alias_name("has space").is_err());
    assert!(AliasStore::validate_alias_name("has!bang").is_err());
    assert!(AliasStore::validate_alias_name("a/b").is_err());
}

#[test]
fn validation_errors_name_their_cause() {
    assert_eq!(AliasStore::validate_alias_name(""), Err(AliasNameError::Empty));
    assert_eq!(
        AliasStore::validate_alias_name("a b"),
        Err(AliasNameError::InvalidCharacters)
    );
    assert_eq!(
        AliasStore::validate_alias_name("caf\u{e9}"),
        Err(AliasNameError::InvalidCharacters)
    );
}

#[test]
fn removing_keeps_other_aliases_in_order() {
    let mut store = AliasStore::new_store();
    store.add_alias("c".into(), "charlie".into());
    store.add_alias("a".into(), "alpha".into());
    store.add_alias("b".into(), "bravo".into());
    assert!(store.remove_alias("b"));
    let list = store.list_aliases();
    assert_eq!(
        list,
        &vec![
            ("a".to_string(), "alpha".to_string()),
            ("c".to_string(), "charlie".to_string())
        ]
    );
    assert_eq!(store.get("b"), None);
    assert!(!store.remove_alias("b"));
}

#[test]
fn names_sort_by_code_point_with_prefixes_first() {
    let mut store = AliasStore::new_store();
    store.add_alias("ab".into(), "2".into());
    store.add_alias("a".into(), "1".into());
    store.add_alias("B".into(), "0".into());
    store.add_alias("a-b".into(), "x".into());
    let keys: Vec<&String> = store.list_aliases().iter().map(|(k, _)| k).collect();
    assert_eq!(keys, vec!["B", "a", "a-b", "ab"]);
}
