use database::errors::DatabaseErrors;
use database::errors::TransactionErrors;
use database::types::{Database, DatabaseOperations, Transaction, TransactionState};

#[test]
fn test_insert_get_data() {
    let mut database = Database::new();
    database.insert_data(String::from("hoo")).unwrap();
    let result = database.get_data(1).unwrap();
    assert_eq!(result.item, "hoo".to_string())
}

#[test]
fn test_get_invalid_key_revert() {
    let database = Database::new();
    assert!(matches!(database.get_data(1), Err(DatabaseErrors::InvalidKeyError)));
}

#[test]
fn test_update_date() {
    let mut database = Database::new();
    database.insert_data(String::from("hello")).unwrap();
    database.update_data(1, "hi".to_string()).unwrap();
    let result = database.get_data(1).unwrap();
    assert_eq!(result.item, "hi".to_string());
}

#[test]
fn test_update_invalid_key_revert() {
    let mut database = Database::new();
    assert!(matches!(
        database.update_data(1, String::from("hey")),
        Err(DatabaseErrors::InvalidKeyError)
    ));
}

#[test]
fn test_delete_data() {
    let mut database = Database::new();
    database.insert_data(String::from("value")).unwrap();
    database.delete_data(1).unwrap();
    let err = database.get_data(1);
    assert!(err.is_err());
}

#[test]
fn test_delete_invalid_key_revert() {
    let mut database = Database::new();
    assert!(matches!(database.delete_data(1), Err(DatabaseErrors::InvalidKeyError)));
}

#[test]
fn test_transaction_insert() {
    let mut database = Database::new();
    let mut tx1 = Transaction::new();
    tx1.add_operation(DatabaseOperations::Insert(String::from("hi"))).unwrap();
    tx1.add_operation(DatabaseOperations::Insert(String::from("hello"))).unwrap();
    tx1.add_operation(DatabaseOperations::Insert(String::from("lol"))).unwrap();
    tx1.commit_changes(&mut database).unwrap();
    let result = database.get_data(1).unwrap();
    assert_eq!(result.item, "hi".to_string());
}

#[test]
fn test_add_invalid_tx_state_revert() {
    let mut tx1 = Transaction::new();
    tx1.roll_back().unwrap();
    assert_eq!(tx1.tx_state, TransactionState::RolledBack);
    assert!(matches!(
        tx1.add_operation(DatabaseOperations::Insert("error?".to_string())),
        Err(TransactionErrors::NotNewTransaction)
    ))
}

#[test]
fn test_transaction_rollback() {
    let mut tx1 = Transaction::new();
    tx1.add_operation(DatabaseOperations::Insert(String::from("loool"))).unwrap();
    tx1.add_operation(DatabaseOperations::Insert(String::from("hello"))).unwrap();
    tx1.add_operation(DatabaseOperations::Insert(String::from("lol"))).unwrap();
    tx1.roll_back().unwrap();
    assert_eq!(tx1.tx_state, TransactionState::RolledBack);
    assert!(tx1.operations.is_empty());
}

#[test]
fn test_failled_commit_state_rollback() {
    let mut database = Database::new();
    let mut tx1 = Transaction::new();
    tx1.add_operation(DatabaseOperations::Insert("hi".to_string())).unwrap();
    tx1.add_operation(DatabaseOperations::Insert("lool".to_string())).unwrap();
    tx1.add_operation(DatabaseOperations::Update(2, String::from("updated"))).unwrap();
    tx1.add_operation(DatabaseOperations::Update(5, String::from("error?"))).unwrap();
    assert!(tx1.commit_changes(&mut database).is_err());
    assert_eq!(tx1.tx_state, TransactionState::RolledBack);
    assert!(tx1.operations.is_empty());
}

#[test]
fn test_transaction_commit() {
    let mut database = Database::new();
    let mut tx1 = Transaction::new();
    tx1.add_operation(DatabaseOperations::Insert("hi".to_string())).unwrap();
    tx1.add_operation(DatabaseOperations::Insert("lool".to_string())).unwrap();
    tx1.add_operation(DatabaseOperations::Insert("kek".to_string())).unwrap();
    tx1.commit_changes(&mut database).unwrap();
    let result = database.get_data(3).unwrap();
    assert_eq!(result.item, "kek".to_string());
    let mut tx2 = Transaction::new();
    tx2.add_operation(DatabaseOperations::Update(2, String::from("updated"))).unwrap();
    tx2.add_operation(DatabaseOperations::Delete(1)).unwrap();
    tx2.commit_changes(&mut database).unwrap();
    let result = database.get_data(2).unwrap();
    let empty = database.get_data(1);
    assert_eq!(result.item, "updated".to_string());
    assert!(empty.is_err());
}

#[test]
fn test_commit_invalid_tx_state_revert() {
    let mut database = Database::new();
    let mut tx1 = Transaction::new();
    tx1.add_operation(DatabaseOperations::Insert("hi".to_string())).unwrap();
    tx1.roll_back().unwrap();
    assert!(matches!(
        tx1.commit_changes(&mut database),
        Err(TransactionErrors::NotNewTransaction)
    ));
}

#[test]
fn test_commit_rolledback_tx_revert() {
    let mut database = Database::new();
    let mut tx1 = Transaction::new();
    tx1.roll_back().unwrap();
    assert_eq!(tx1.tx_state, TransactionState::RolledBack);
    assert!(matches!(
        tx1.commit_changes(&mut database),
        Err(TransactionErrors::NotNewTransaction)
    ))
}

#[test]
fn test_already_commited_tx_revert() {
    let mut database = Database::new();
    let mut tx1 = Transaction::new();
    tx1.add_operation(DatabaseOperations::Insert(String::from("hi"))).unwrap();
    tx1.commit_changes(&mut database).unwrap();
    assert_eq!(tx1.tx_state, TransactionState::Commited);
    assert!(matches!(
        tx1.commit_changes(&mut database),
        Err(TransactionErrors::NotNewTransaction)
    ));
}
