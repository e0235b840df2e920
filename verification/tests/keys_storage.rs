use hide_keys::keys_storage::error::Error;
use hide_keys::keys_storage::{InMemoryKeysStorage, KeysStorage};

#[test]
fn test_put_key() {
    let mut storage = InMemoryKeysStorage::new();

    assert!(storage.put("word").is_ok());
    assert!(storage.contains("word"));
}

#[test]
fn test_remove_key() {
    let mut storage = InMemoryKeysStorage::new();

    storage.put("word").unwrap();
    assert!(storage.contains("word"));

    assert!(storage.remove("word").is_ok());
    assert!(!storage.contains("word"));
}

#[test]
fn test_contains_key() {
    let mut storage = InMemoryKeysStorage::new();

    assert!(!storage.contains("word"));

    storage.put("word1").unwrap();
    assert!(storage.contains("word1"));
    assert!(!storage.contains("word2"));

    storage.remove("word1").unwrap();
    assert!(!storage.contains("word1"));
}

#[test]
fn test_put_existing_key() {
    let mut storage = InMemoryKeysStorage::new();

    assert!(storage.put("word").is_ok());
    assert!(storage.put("word").is_err());
}

#[test]
fn test_remove_nonexistent_key() {
    let mut storage = InMemoryKeysStorage::new();

    assert!(storage.remove("word").is_err());
}

#[test]
fn test_contains_after_remove() {
    let mut storage = InMemoryKeysStorage::new();

    storage.put("word").unwrap();
    assert!(storage.contains("word"));

    storage.remove("word").unwrap();
    assert!(!storage.contains("word"));
}

#[test]
fn test_put_and_remove_multiple_key() {
    let mut storage = InMemoryKeysStorage::new();

    storage.put("word1").unwrap();
    storage.put("word2").unwrap();
    assert!(storage.contains("word1"));
    assert!(storage.contains("word2"));

    storage.remove("word1").unwrap();
    assert!(!storage.contains("word1"));
    assert!(storage.contains("word2"));
}

#[test]
fn test_put_empty_string() {
    let mut storage = InMemoryKeysStorage::new();

    assert!(storage.put("").is_err());
}

#[test]
fn test_remove_empty_string() {
    let mut storage = InMemoryKeysStorage::new();

    assert!(storage.remove("").is_err());
}

#[test]
fn test_all_works() {
    let mut storage = InMemoryKeysStorage::new();

    storage.put("one").unwrap();
    storage.put("two").unwrap();

    let all = storage.all();
    assert!(all.contains(&String::from("one")));
    assert!(all.contains(&String::from("two")));
    assert_eq!(all.len(), 2);
}

#[test]
fn put_tells_why_it_refused() {
    let mut storage = InMemoryKeysStorage::new();

    match storage.put("") {
        Err(Error::Other(reason)) => assert_eq!(reason, "Can't save empty string"),
        other => panic!("unexpected outcome: {:?}", other),
    }
    assert_eq!(storage.all().len(), 0);

    assert!(storage.put("k").is_ok());
    match storage.put("k") {
        Err(Error::KeyAlreadyExists(key)) => assert_eq!(key, "k"),
        other => panic!("unexpected outcome: {:?}", other),
    }
    assert_eq!(storage.all(), vec![String::from("k")]);
}

#[test]
fn remove_tells_which_key_was_missing() {
    let mut storage = InMemoryKeysStorage::new();
    storage.put("present").unwrap();

    match storage.remove("missing") {
        Err(Error::KeyNotFound(key)) => assert_eq!(key, "missing"),
        other => panic!("unexpected outcome: {:?}", other),
    }
    assert_eq!(storage.all(), vec![String::from("present")]);
}

#[test]
fn all_lists_the_keys_in_the_order_they_came() {
    let mut storage = InMemoryKeysStorage::new();
    storage.put("a").unwrap();
    storage.put("b").unwrap();
    storage.put("c").unwrap();
    assert_eq!(storage.all(), vec![String::from("a"), String::from("b"), String::from("c")]);

    storage.remove("b").unwrap();
    assert_eq!(storage.all(), vec![String::from("a"), String::from("c")]);

    storage.put("b").unwrap();
    assert_eq!(storage.all(), vec![String::from("a"), String::from("c"), String::from("b")]);
}

#[test]
fn contains_folds_nothing() {
    let mut storage = InMemoryKeysStorage::new();
    storage.put("Password").unwrap();

    assert!(storage.contains("Password"));
    assert!(!storage.contains("password"));
    assert!(!storage.contains("Password "));
    assert!(!storage.contains(""));
}

#[test]
fn init_with_takes_each_string_once() {
    let given = vec![
        String::from("name"),
        String::from("age"),
        String::from("name"),
        String::from(""),
    ];
    let storage = InMemoryKeysStorage::init_with(&given);

    assert_eq!(storage.all(), vec![String::from("name"), String::from("age"), String::from("")]);
    assert!(storage.contains("name"));
    assert!(storage.contains("age"));
    assert!(storage.contains(""));
    assert!(!storage.contains("surname"));
}

#[test]
fn init_with_nothing_is_an_empty_storage() {
    let mut storage = InMemoryKeysStorage::init_with(&Vec::new());

    assert!(storage.all().is_empty());
    assert!(storage.remove("anything").is_err());
    assert!(storage.put("anything").is_ok());
}

#[test]
fn errors_read_as_their_messages() {
    assert_eq!(
        Error::KeyAlreadyExists(String::from("pw")).to_string(),
        "Key 'pw' already exists in storage"
    );
    assert_eq!(Error::KeyNotFound(String::from("pw")).to_string(), "Key 'pw' not found in storage");
    assert_eq!(Error::StorageFull.to_string(), "Storage is full");
    assert_eq!(Error::StorageReadError.to_string(), "Error reading from storage");
    assert_eq!(Error::StorageWriteError.to_string(), "Error writing to storage");
    assert_eq!(Error::StorageInitializationError.to_string(), "Error initializing storage");
    assert_eq!(
        Error::Other(String::from("Can't save empty string")).to_string(),
        "Other error: Can't save empty string"
    );
}
