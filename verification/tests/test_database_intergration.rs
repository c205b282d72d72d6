use database::errors::TransactionErrors;
use database::types::{Database, DatabaseOperations, Transaction, TransactionState};

// Several independent transaction batches against one shared store, run
// back to back: committed effects persist across batches, a failed commit
// keeps its already-applied prefix, and key-disjoint batches never disturb
// each other's records.
#[test]
fn test_intergration_concurrency() {
    let mut database = Database::new();

    let mut tx1 = Transaction::new();
    tx1.add_operation(DatabaseOperations::Insert("1".to_string())).unwrap();
    tx1.add_operation(DatabaseOperations::Insert("2".to_string())).unwrap();
    tx1.add_operation(DatabaseOperations::Insert("3".to_string())).unwrap();
    tx1.add_operation(DatabaseOperations::Insert("4".to_string())).unwrap();
    tx1.add_operation(DatabaseOperations::Insert("5".to_string())).unwrap();
    tx1.add_operation(DatabaseOperations::Insert("6".to_string())).unwrap();
    tx1.add_operation(DatabaseOperations::Insert("7".to_string())).unwrap();
    tx1.add_operation(DatabaseOperations::Insert("8".to_string())).unwrap();
    tx1.add_operation(DatabaseOperations::Insert("9".to_string())).unwrap();
    tx1.add_operation(DatabaseOperations::Insert("19".to_string())).unwrap();
    tx1.add_operation(DatabaseOperations::Insert("11".to_string())).unwrap();
    tx1.add_operation(DatabaseOperations::Insert("12".to_string())).unwrap();
    tx1.commit_changes(&mut database).unwrap();
    let result = database.get_data(1).unwrap();
    assert_eq!(result.item, "1".to_string());
    assert!(matches!(
        tx1.commit_changes(&mut database),
        Err(TransactionErrors::NotNewTransaction)
    ));

    let mut tx2 = Transaction::new();
    tx2.add_operation(DatabaseOperations::Insert("13".to_string())).unwrap();
    tx2.add_operation(DatabaseOperations::Update(2, "updated".to_string())).unwrap();
    tx2.add_operation(DatabaseOperations::Delete(4)).unwrap();
    tx2.commit_changes(&mut database).unwrap();
    let updated = database.get_data(2).unwrap();
    let empty = database.get_data(4);
    assert!(empty.is_err());
    assert_eq!(updated.item, "updated".to_string());

    let mut tx3 = Transaction::new();
    tx3.add_operation(DatabaseOperations::Insert("rollback".to_string())).unwrap();
    tx3.add_operation(DatabaseOperations::Insert("rollback".to_string())).unwrap();
    tx3.roll_back().unwrap();
    let empty = database.get_data(24);
    assert_eq!(tx3.tx_state, TransactionState::RolledBack);
    assert!(empty.is_err());
    assert!(matches!(
        tx3.commit_changes(&mut database),
        Err(TransactionErrors::NotNewTransaction)
    ));

    let mut tx4 = Transaction::new();
    tx4.add_operation(DatabaseOperations::Insert("commit rollback".to_string())).unwrap();
    tx4.add_operation(DatabaseOperations::Insert("commit rollback".to_string())).unwrap();
    tx4.add_operation(DatabaseOperations::Delete(22)).unwrap();
    let err = tx4.commit_changes(&mut database);
    assert_eq!(tx4.tx_state, TransactionState::RolledBack);
    assert!(err.is_err());

    let result1 = database.get_data(1).unwrap();
    let result2 = database.get_data(3).unwrap();
    let result3 = database.get_data(5).unwrap();
    let result4 = database.get_data(2).unwrap();
    let result6 = database.get_data(7).unwrap();
    let result7 = database.get_data(8).unwrap();
    assert_eq!(result1.item, "1".to_string());
    assert_eq!(result2.item, "3".to_string());
    assert_eq!(result3.item, "5".to_string());
    assert_eq!(result4.item, "updated".to_string());
    assert_eq!(result6.item, "7".to_string());
    assert_eq!(result7.item, "8".to_string());

    let mut tx6 = Transaction::new();
    tx6.add_operation(DatabaseOperations::Insert("14".to_string())).unwrap();
    tx6.add_operation(DatabaseOperations::Insert("15".to_string())).unwrap();
    tx6.add_operation(DatabaseOperations::Insert("16".to_string())).unwrap();
    tx6.commit_changes(&mut database).unwrap();
    let mut tx7 = Transaction::new();
    tx7.add_operation(DatabaseOperations::Update(16, "updated".to_string())).unwrap();
    tx7.add_operation(DatabaseOperations::Update(15, "updated".to_string())).unwrap();
    tx7.add_operation(DatabaseOperations::Update(6, "updated".to_string())).unwrap();
    tx7.add_operation(DatabaseOperations::Update(14, "updated".to_string())).unwrap();
    tx7.add_operation(DatabaseOperations::Update(9, "updated".to_string())).unwrap();
    tx7.commit_changes(&mut database).unwrap();
    let result1 = database.get_data(16).unwrap();
    let result2 = database.get_data(16).unwrap();
    let result3 = database.get_data(16).unwrap();
    let result4 = database.get_data(16).unwrap();
    let result5 = database.get_data(16).unwrap();
    assert_eq!(result1.item, "updated".to_string());
    assert_eq!(result2.item, "updated".to_string());
    assert_eq!(result3.item, "updated".to_string());
    assert_eq!(result4.item, "updated".to_string());
    assert_eq!(result5.item, "updated".to_string());

    let final_result1 = database.get_data(16).unwrap();
    let final_result2 = database.get_data(2).unwrap();
    let final_result3 = database.get_data(8).unwrap();
    let final_result4 = database.get_data(13).unwrap();
    let final_result5 = database.get_data(4);
    assert_eq!(final_result1.item, "updated".to_string());
    assert_eq!(final_result2.item, "updated".to_string());
    assert_eq!(final_result3.item, "8".to_string());
    assert_eq!(final_result4.item, "13".to_string());
    assert!(final_result5.is_err());
}
