use table_map_db::chunks::partition;
use table_map_db::digits::u64_to_dec;
use table_map_db::driver::{export_batches, export_step, ExportEvent, ExportState};
use table_map_db::errors::DataToolErrors;
use table_map_db::pivot::pivot_chunk;
use table_map_db::sqltext::{create_table_sql, insert_sql};
use table_map_db::store::{KeyValPair, TableMapDb};

#[test]
fn chunk_partition() {
    let ids: Vec<i64> = vec![1, 2, 3, 4, 5, 6, 7, 8, 9, 10];
    let chunks = partition(&ids, 3);
    assert_eq!(
        chunks,
        vec![vec![1i64, 2, 3], vec![4, 5, 6], vec![7, 8, 9], vec![10]]
    );
    let flat: Vec<i64> = chunks.into_iter().flatten().collect();
    assert_eq!(flat, ids);
}

#[test]
fn partition_edges() {
    let empty: Vec<i64> = vec![];
    assert_eq!(partition(&empty, 3), Vec::<Vec<i64>>::new());
    let two = vec![5i64, 4];
    assert_eq!(partition(&two, 10), vec![vec![5i64, 4]]);
    let exact = vec![9i64, 8];
    assert_eq!(partition(&exact, 2), vec![vec![9i64, 8]]);
}

#[test]
fn end_to_end_export() {
    let mut db = TableMapDb::new();
    db.next_row("apple").unwrap();
    db.insert("color", "red").unwrap();
    db.next_row("pear").unwrap();
    db.insert("color", "green").unwrap();
    db.insert("shape", "oval").unwrap();
    let (cols, batches) = export_batches(&mut db, 1, vec!["shape".to_string()]).unwrap();
    assert_eq!(cols, vec!["shape".to_string(), "color".to_string()]);
    let mut rows: Vec<Vec<String>> = batches.into_iter().flatten().collect();
    rows.sort();
    assert_eq!(
        rows,
        vec![
            vec!["".to_string(), "red".to_string()],
            vec!["oval".to_string(), "green".to_string()],
        ]
    );
}

#[test]
fn row_completeness() {
    let mut db = TableMapDb::new();
    db.next_row("sparse").unwrap();
    db.insert("b", "2").unwrap();
    let (cols, batches) = export_batches(&mut db, 4, vec!["a".to_string(), "c".to_string()])
        .unwrap();
    assert_eq!(
        cols,
        vec!["a".to_string(), "c".to_string(), "b".to_string()]
    );
    assert_eq!(batches.len(), 1);
    assert_eq!(batches[0].len(), 1);
    // every exported row has one field per column; absent keys are "", not omitted
    assert_eq!(
        batches[0][0],
        vec!["".to_string(), "".to_string(), "2".to_string()]
    );
}

#[test]
fn export_last_write_wins() {
    let mut db = TableMapDb::new();
    db.next_row("x").unwrap();
    db.insert("color", "red").unwrap();
    db.insert("color", "blue").unwrap();
    let (cols, batches) = export_batches(&mut db, 10, vec![]).unwrap();
    assert_eq!(cols, vec!["color".to_string()]);
    assert_eq!(batches, vec![vec![vec!["blue".to_string()]]]);
}

#[test]
fn entity_without_attributes_yields_no_row() {
    let mut db = TableMapDb::new();
    db.next_row("bare").unwrap();
    db.next_row("dressed").unwrap();
    db.insert("k", "v").unwrap();
    let (cols, batches) = export_batches(&mut db, 10, vec![]).unwrap();
    assert_eq!(cols, vec!["k".to_string()]);
    let rows: Vec<Vec<String>> = batches.into_iter().flatten().collect();
    assert_eq!(rows, vec![vec!["v".to_string()]]);
}

#[test]
fn pivot_chunk_groups_and_projects() {
    let rows = vec![
        (1i64, KeyValPair::new("a".to_string(), "1".to_string())),
        (1i64, KeyValPair::new("b".to_string(), "2".to_string())),
        (2i64, KeyValPair::new("a".to_string(), "3".to_string())),
    ];
    let cols = vec!["a".to_string(), "b".to_string()];
    let out = pivot_chunk(&rows, &cols);
    assert_eq!(
        out,
        vec![
            vec!["1".to_string(), "2".to_string()],
            vec!["3".to_string(), "".to_string()],
        ]
    );
}

#[test]
fn decimal_rendering() {
    assert_eq!(u64_to_dec(0), "0");
    assert_eq!(u64_to_dec(7), "7");
    assert_eq!(u64_to_dec(10), "10");
    assert_eq!(u64_to_dec(90210), "90210");
    assert_eq!(u64_to_dec(u64::MAX), "18446744073709551615");
}

#[test]
fn sql_statements() {
    let cols = vec!["shape".to_string(), "color".to_string()];
    assert_eq!(
        create_table_sql(&cols),
        "create table products (\"shape\" TEXT,\"color\" TEXT)"
    );
    assert_eq!(
        insert_sql(&cols),
        "insert into products (\"shape\",\"color\") values (?1,?2)"
    );
    let one = vec!["k".to_string()];
    assert_eq!(create_table_sql(&one), "create table products (\"k\" TEXT)");
    assert_eq!(insert_sql(&one), "insert into products (\"k\") values (?1)");
}

#[test]
fn export_run_reaches_complete() {
    let mut s = ExportState::Idle;
    s = export_step(s, ExportEvent::ColumnsReady);
    assert_eq!(s, ExportState::ColumnsDiscovered);
    s = export_step(s, ExportEvent::WorkersSpawned { count: 2 });
    assert_eq!(s, ExportState::WorkersLaunched { remaining: 2 });
    s = export_step(s, ExportEvent::WorkerFinished);
    assert_eq!(s, ExportState::Draining { remaining: 1 });
    s = export_step(s, ExportEvent::WorkerFinished);
    assert_eq!(s, ExportState::Complete);
    // a stray event leaves the phase unchanged: there is no failure terminal
    s = export_step(s, ExportEvent::WorkerFinished);
    assert_eq!(s, ExportState::Complete);
}

#[test]
fn export_with_no_chunks_completes_at_launch() {
    let s = export_step(
        ExportState::ColumnsDiscovered,
        ExportEvent::WorkersSpawned { count: 0 },
    );
    assert_eq!(s, ExportState::Complete);
}

#[test]
fn error_messages() {
    let g = DataToolErrors::GenericError("boom".to_string());
    assert_eq!(g.message(), "boom");
    let c = DataToolErrors::CsvError("bad record".to_string());
    assert_eq!(c.message(), "bad record");
    let io = std::io::Error::new(std::io::ErrorKind::Other, "disk gone");
    let from_io = DataToolErrors::from(io);
    assert_eq!(from_io.message(), "disk gone");
}
