use indexmap::IndexMap;
use table_map_db::store::TableMapDb;

#[test]
fn dedup_idempotence() {
    let mut db = TableMapDb::new();
    db.next_row("x").unwrap();
    db.next_row("x").unwrap();
    assert_eq!(db.how_many_items().unwrap(), 1);
    assert_eq!(db.item_ids(), vec![1i64]);
    let pivoted = db.next().unwrap();
    assert_eq!(pivoted.get("id").unwrap(), "1");
}

#[test]
fn select_or_create_returns_existing_entity() {
    let mut db = TableMapDb::new();
    db.next_row("a").unwrap();
    db.next_row("b").unwrap();
    db.next_row("a").unwrap();
    db.insert("seen", "again").unwrap();
    assert_eq!(db.how_many_items().unwrap(), 2);
    // the attach after re-selecting "a" landed on entity 1
    let first = db.next().unwrap();
    assert_eq!(first.get("id").unwrap(), "1");
    assert_eq!(first.get("seen").unwrap(), "again");
}

#[test]
fn column_determinism() {
    let mut db = TableMapDb::new();
    db.next_row("e").unwrap();
    db.insert("color", "red").unwrap();
    db.insert("shape", "round").unwrap();
    let cols = db.get_distinct_keys(vec!["shape".to_string()]).unwrap();
    assert_eq!(cols, vec!["shape".to_string(), "color".to_string()]);
    let again = db.get_distinct_keys(vec!["shape".to_string()]).unwrap();
    assert_eq!(again, cols);
}

#[test]
fn distinct_keys_dedups_priority_list() {
    let mut db = TableMapDb::new();
    db.next_row("e").unwrap();
    db.insert("color", "red").unwrap();
    let cols = db
        .get_distinct_keys(vec!["shape".to_string(), "shape".to_string()])
        .unwrap();
    assert_eq!(cols, vec!["shape".to_string(), "color".to_string()]);
}

#[test]
fn precondition_enforcement() {
    let mut db = TableMapDb::new();
    let r = db.insert("color", "red");
    assert_eq!(r, Err("No item is set".to_string()));
    assert_eq!(db.how_many_items().unwrap(), 0);
    let cols = db.get_distinct_keys(vec![]).unwrap();
    assert_eq!(cols, Vec::<String>::new());
}

#[test]
fn batched_attach_precondition() {
    let mut db = TableMapDb::new();
    let mut im = IndexMap::new();
    im.insert("a".to_string(), "1".to_string());
    let r = db.insert_batched(&im);
    assert!(r.is_err());
    assert_eq!(r.unwrap_err().message(), "No Item is set");
    let cols = db.get_distinct_keys(vec![]).unwrap();
    assert_eq!(cols, Vec::<String>::new());
}

#[test]
fn batched_attach_in_map_order() {
    let mut db = TableMapDb::new();
    db.next_row("x").unwrap();
    let mut im = IndexMap::new();
    im.insert("color".to_string(), "red".to_string());
    im.insert("size".to_string(), "big".to_string());
    // an existing key keeps its place and takes the new value
    im.insert("color".to_string(), "blue".to_string());
    db.insert_batched(&im).unwrap();
    let cols = db.get_distinct_keys(vec![]).unwrap();
    assert_eq!(cols, vec!["color".to_string(), "size".to_string()]);
    let row = db.next().unwrap();
    assert_eq!(row.get("color").unwrap(), "blue");
    assert_eq!(row.get("size").unwrap(), "big");
}

#[test]
fn row_iteration_pivots_each_entity() {
    let mut db = TableMapDb::new();
    db.next_row("apple").unwrap();
    db.insert("color", "red").unwrap();
    db.next_row("pear").unwrap();
    db.insert("shape", "oval").unwrap();
    let first = db.next().unwrap();
    assert_eq!(first.get("id").unwrap(), "1");
    assert_eq!(first.get("color").unwrap(), "red");
    assert_eq!(first.len(), 2);
    let second = db.next().unwrap();
    assert_eq!(second.get("id").unwrap(), "2");
    assert_eq!(second.get("shape").unwrap(), "oval");
    assert!(db.next().is_none());
    assert!(db.next().is_none());
}

#[test]
fn row_iteration_last_write_wins() {
    let mut db = TableMapDb::new();
    db.next_row("x").unwrap();
    db.insert("color", "red").unwrap();
    db.insert("color", "blue").unwrap();
    let row = db.next().unwrap();
    assert_eq!(row.get("color").unwrap(), "blue");
    assert_eq!(row.len(), 2);
}

#[test]
fn item_ids_descend() {
    let mut db = TableMapDb::new();
    db.next_row("a").unwrap();
    db.next_row("b").unwrap();
    db.next_row("c").unwrap();
    assert_eq!(db.item_ids(), vec![3i64, 2, 1]);
}
