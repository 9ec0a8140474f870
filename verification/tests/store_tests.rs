use msg_log_store::errors::StoreError;
use msg_log_store::store::Database;
use msg_log_store::table::LogTable;

fn insert(db: &mut Database, msg_id: i64, guild_id: i64, content: &str) -> Result<(), StoreError> {
    db.insert_msg_logs(msg_id, guild_id, 77, 88, content, Vec::new())
}

fn insert_deleted(
    db: &mut Database,
    msg_id: i64,
    guild_id: i64,
    content: &str,
) -> Result<(), StoreError> {
    db.insert_deleted_msgs(msg_id, guild_id, 77, 88, content, Vec::new())
}

#[test]
fn new_database_is_empty() {
    let db = Database::new().unwrap();
    assert_eq!(db.msg_logs_len(), 0);
    assert_eq!(db.deleted_msgs_len(), 0);
}

#[test]
fn create_tables_is_idempotent_and_keeps_data() {
    let mut db = Database::with_capacity(10);
    assert!(db.create_table_msg_logs().is_ok());
    assert!(db.create_table_deleted_msgs().is_ok());
    insert(&mut db, 1, 5, "hello").unwrap();
    assert!(db.create_table_msg_logs().is_ok());
    assert!(db.create_table_deleted_msgs().is_ok());
    assert_eq!(db.msg_logs_len(), 1);
}

#[test]
fn capacity_two_scenario() {
    let mut db = Database::with_capacity(2);
    insert(&mut db, 1, 5, "one").unwrap();
    insert(&mut db, 2, 5, "two").unwrap();
    insert(&mut db, 3, 5, "three").unwrap();
    // Table holds {2, 3}.
    assert_eq!(db.msg_logs_len(), 2);
    assert!(!db.msg_logs_contains(1));
    assert!(db.msg_logs_contains(2));
    assert!(db.msg_logs_contains(3));

    insert(&mut db, 4, 5, "four").unwrap();
    // Table holds {3, 4}.
    assert_eq!(db.msg_logs_len(), 2);
    assert!(!db.msg_logs_contains(2));
    assert!(db.msg_logs_contains(3));
    assert!(db.msg_logs_contains(4));

    // Inserting id 3 again fails and changes nothing.
    assert_eq!(insert(&mut db, 3, 5, "again"), Err(StoreError::DuplicateKey));
    assert_eq!(db.msg_logs_len(), 2);
    assert!(db.msg_logs_contains(3));
    assert!(db.msg_logs_contains(4));
    let rows = db.read_logs_by_id(3).unwrap();
    assert_eq!(rows.len(), 1);
    assert_eq!(rows[0].content, "three");
}

#[test]
fn duplicate_key_leaves_table_unchanged() {
    let mut db = Database::with_capacity(5);
    insert(&mut db, 10, 1, "first").unwrap();
    let r = db.insert_msg_logs(10, 2, 3, 4, "second", vec!["x".to_string()]);
    assert_eq!(r, Err(StoreError::DuplicateKey));
    assert_eq!(db.msg_logs_len(), 1);
    let rows = db.read_logs_by_id(10).unwrap();
    assert_eq!(rows.len(), 1);
    assert_eq!(rows[0].guild_id, 1);
    assert_eq!(rows[0].content, "first");
    assert_eq!(rows[0].attachments, "");
}

#[test]
fn retention_keeps_largest_ids() {
    // Five inserts, out of order, into a table of capacity three: the three
    // largest ids survive.
    let mut db = Database::with_capacity(3);
    for id in [30i64, 10, 50, 20, 40] {
        insert(&mut db, id, 1, "m").unwrap();
    }
    assert_eq!(db.msg_logs_len(), 3);
    assert!(db.msg_logs_contains(30));
    assert!(db.msg_logs_contains(40));
    assert!(db.msg_logs_contains(50));
    assert!(!db.msg_logs_contains(10));
    assert!(!db.msg_logs_contains(20));
}

#[test]
fn insert_below_minimum_of_full_table_evicts_itself() {
    // The eviction policy removes the smallest id after the insert, which
    // is the new record itself when it is below everything already stored.
    let mut db = Database::with_capacity(2);
    insert(&mut db, 2, 1, "two").unwrap();
    insert(&mut db, 3, 1, "three").unwrap();
    insert(&mut db, 1, 1, "one").unwrap();
    assert_eq!(db.msg_logs_len(), 2);
    assert!(!db.msg_logs_contains(1));
    assert!(db.msg_logs_contains(2));
    assert!(db.msg_logs_contains(3));
}

#[test]
fn read_logs_by_id_not_found_is_empty_not_error() {
    let db = Database::with_capacity(4);
    let rows = db.read_logs_by_id(999).unwrap();
    assert!(rows.is_empty());
}

#[test]
fn read_logs_by_id_returns_all_fields() {
    let mut db = Database::with_capacity(4);
    db.insert_msg_logs(7, 1, 2, 3, "body", vec!["a.png".to_string(), "b.png".to_string()])
        .unwrap();
    let rows = db.read_logs_by_id(7).unwrap();
    assert_eq!(rows.len(), 1);
    assert_eq!(rows[0].msg_id, 7);
    assert_eq!(rows[0].guild_id, 1);
    assert_eq!(rows[0].channel_id, 2);
    assert_eq!(rows[0].author_id, 3);
    assert_eq!(rows[0].content, "body");
    assert_eq!(rows[0].attachments, "a.png,b.png");
}

#[test]
fn update_content_changes_only_content() {
    let mut db = Database::with_capacity(4);
    db.insert_msg_logs(7, 1, 2, 3, "before", vec!["u".to_string()]).unwrap();
    insert(&mut db, 8, 1, "other").unwrap();
    db.update_logs_by_id(7, "after").unwrap();
    let rows = db.read_logs_by_id(7).unwrap();
    assert_eq!(rows.len(), 1);
    assert_eq!(rows[0].msg_id, 7);
    assert_eq!(rows[0].guild_id, 1);
    assert_eq!(rows[0].channel_id, 2);
    assert_eq!(rows[0].author_id, 3);
    assert_eq!(rows[0].content, "after");
    assert_eq!(rows[0].attachments, "u");
    // The other record is untouched.
    let rows = db.read_logs_by_id(8).unwrap();
    assert_eq!(rows[0].content, "other");
}

#[test]
fn update_content_on_absent_id_succeeds_without_creating_a_row() {
    let mut db = Database::with_capacity(4);
    insert(&mut db, 1, 1, "x").unwrap();
    assert!(db.update_logs_by_id(42, "new").is_ok());
    assert_eq!(db.msg_logs_len(), 1);
    assert!(db.read_logs_by_id(42).unwrap().is_empty());
}

#[test]
fn get_last_deleted_msgs_returns_maximum_id_for_guild() {
    let mut db = Database::with_capacity(10);
    insert_deleted(&mut db, 5, 1, "g1 old").unwrap();
    insert_deleted(&mut db, 9, 1, "g1 new").unwrap();
    insert_deleted(&mut db, 7, 2, "g2").unwrap();
    let rows = db.get_last_deleted_msgs(1).unwrap();
    assert_eq!(rows.len(), 1);
    assert_eq!(rows[0].msg_id, 9);
    assert_eq!(rows[0].content, "g1 new");
    let rows = db.get_last_deleted_msgs(2).unwrap();
    assert_eq!(rows.len(), 1);
    assert_eq!(rows[0].msg_id, 7);
    let rows = db.get_last_deleted_msgs(3).unwrap();
    assert!(rows.is_empty());
}

#[test]
fn tables_are_disjoint() {
    let mut db = Database::with_capacity(5);
    insert(&mut db, 1, 1, "active").unwrap();
    insert_deleted(&mut db, 1, 1, "deleted").unwrap();
    assert_eq!(db.msg_logs_len(), 1);
    assert_eq!(db.deleted_msgs_len(), 1);
    // The same id lives in both tables independently.
    let rows = db.read_logs_by_id(1).unwrap();
    assert_eq!(rows[0].content, "active");
    let rows = db.get_last_deleted_msgs(1).unwrap();
    assert_eq!(rows[0].content, "deleted");
}

#[test]
fn log_table_direct_insert_and_eviction() {
    let mut t = LogTable::new(1);
    let mk = |id: i64| msg_log_store::record::MsgLogs {
        msg_id: id,
        guild_id: 0,
        channel_id: 0,
        author_id: 0,
        content: String::new(),
        attachments: String::new(),
    };
    t.insert(mk(4)).unwrap();
    t.insert(mk(6)).unwrap();
    assert_eq!(t.len(), 1);
    assert!(!t.contains_id(4));
    assert!(t.contains_id(6));
    assert_eq!(t.insert(mk(6)), Err(StoreError::DuplicateKey));
    let found = t.get_by_id(6);
    assert_eq!(found.len(), 1);
    assert_eq!(found[0].msg_id, 6);
}

#[test]
fn store_error_messages() {
    assert_eq!(StoreError::DuplicateKey.message(), "duplicate msg_id");
    assert_eq!(StoreError::Connection.message(), "connection failure");
    assert_eq!(StoreError::Schema.message(), "schema initialization failure");
    assert_eq!(StoreError::Backend.message(), "backend failure");
}

#[test]
fn print_error_carries_its_text() {
    let e = msg_log_store::PrintError("something went wrong".to_string());
    assert_eq!(e.message(), "something went wrong");
}
