use advanced_rust::ffi_sim::{db_close, db_execute, db_open, Database};

#[test]
fn database_counts_queries() {
    let mut db = Database::open("my_app.db").ok().unwrap();
    assert_eq!(db.execute("SELECT * FROM users"), Ok(()));
    assert_eq!(db.execute("INSERT INTO logs VALUES (...)"), Ok(()));
    assert_eq!(db.name(), "my_app.db");
    assert_eq!(db.query_count(), 2);
}

#[test]
fn nul_bytes_are_refused() {
    assert_eq!(Database::open("has\0null").err(), Some("name contains null byte"));
    let mut db = Database::open("ok.db").ok().unwrap();
    assert_eq!(db.execute("bad\0query"), Err("query contains null byte"));
    assert_eq!(db.query_count(), 0);
    assert_eq!(db.execute(""), Ok(()));
    assert_eq!(db.query_count(), 1);
}

#[test]
fn raw_handle_lifecycle() {
    let mut h = db_open("raw.db");
    assert_eq!(h.name, "raw.db");
    assert!(h.connected);
    assert_eq!(h.query_count, 0);
    assert_eq!(db_execute(&mut h), 0);
    assert_eq!(h.query_count, 1);
    db_close(&mut h);
    assert!(!h.connected);
    assert_eq!(db_execute(&mut h), -2);
    assert_eq!(h.query_count, 1);
}

#[test]
fn closing_hands_back_a_closed_handle() {
    let mut db = Database::open("c.db").ok().unwrap();
    db.execute("q").unwrap();
    let h = db.close();
    assert!(!h.connected);
    assert_eq!(h.name, "c.db");
    assert_eq!(h.query_count, 1);
}
