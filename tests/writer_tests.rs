use db_cov19mx::error::LoadError;
use db_cov19mx::frame::{CellValue, Frame};
use db_cov19mx::insert::{insert_statement, partition_batches, quote_sql_text, value_to_sql};
use db_cov19mx::schema::{SqliteColOption, SqliteSchema};
use db_cov19mx::types::{SourceType, SqliteDataType};
use db_cov19mx::writer::{
    IfExistsOption, SqlWriter, StoreAction, StoreEvent, WriteSession, WriteStage,
};
use std::collections::HashMap;

/// Row counts per table, standing in for the relational store.
struct MemoryStore {
    tables: HashMap<String, usize>,
    refuse_batch: Option<usize>,
}

impl MemoryStore {
    fn new() -> Self {
        MemoryStore { tables: HashMap::new(), refuse_batch: None }
    }
}

/// Runs a session to its end; returns the statements it executed.
fn drive(session: &mut WriteSession, store: &mut MemoryStore) -> Vec<String> {
    let mut executed = Vec::new();
    for _ in 0..1000 {
        let action = session.next_action();
        let event = match action {
            StoreAction::CheckTableExists(t) => StoreEvent::TableExists(store.tables.contains_key(&t)),
            StoreAction::Execute(sql) => {
                let event = match session.stage {
                    WriteStage::DropExisting => {
                        store.tables.remove(&session.table);
                        StoreEvent::Executed
                    }
                    WriteStage::Create => {
                        store.tables.entry(session.table.clone()).or_insert(0);
                        StoreEvent::Executed
                    }
                    WriteStage::Insert(i) => {
                        if store.refuse_batch == Some(i) {
                            StoreEvent::ExecutionFailed("constraint failed".to_string())
                        } else {
                            let (start, end) = session.batches[i];
                            *store.tables.get_mut(&session.table).unwrap() += end - start;
                            StoreEvent::Executed
                        }
                    }
                    _ => unreachable!(),
                };
                executed.push(sql);
                event
            }
            StoreAction::Finished | StoreAction::Abort(_) => return executed,
        };
        session.on_event(event);
    }
    panic!("session did not end");
}

fn frame(n: usize) -> Frame {
    let rows = (0..n)
        .map(|i| vec![CellValue::Int(i as i64), CellValue::Text(format!("r{i}"))])
        .collect();
    Frame {
        columns: vec!["a".to_string(), "b".to_string()],
        dtypes: vec![SourceType::Int64, SourceType::String],
        rows,
    }
}

#[test]
fn text_values_double_inner_quotes() {
    assert_eq!(quote_sql_text("O'Brien"), "'O''Brien'");
    assert_eq!(quote_sql_text("''"), "''''''");
    assert_eq!(quote_sql_text(""), "''");
}

#[test]
fn values_render_per_type() {
    assert_eq!(value_to_sql(&CellValue::Null), "NULL");
    assert_eq!(value_to_sql(&CellValue::Boolean(true)), "1");
    assert_eq!(value_to_sql(&CellValue::Boolean(false)), "0");
    assert_eq!(value_to_sql(&CellValue::Int(-42)), "-42");
    assert_eq!(value_to_sql(&CellValue::UInt(9007)), "9007");
    assert_eq!(value_to_sql(&CellValue::Real("2.5".to_string())), "2.5");
    assert_eq!(value_to_sql(&CellValue::Text("it's".to_string())), "'it''s'");
}

#[test]
fn insert_statement_covers_the_selected_rows() {
    let df = frame(3);
    let sql = insert_statement("t", &df.columns, &df.rows, 1, 3);
    assert_eq!(sql, "INSERT INTO t (a,b) VALUES (1,'r1'),(2,'r2')");
}

#[test]
fn batches_partition_rows_in_order() {
    assert_eq!(partition_batches(10, 4), vec![(0, 4), (4, 8), (8, 10)]);
    assert_eq!(partition_batches(8, 4), vec![(0, 4), (4, 8)]);
    assert_eq!(partition_batches(3, 5), vec![(0, 3)]);
    assert_eq!(partition_batches(0, 5), Vec::<(usize, usize)>::new());
    let b = partition_batches(1001, 100);
    assert_eq!(b.len(), 11);
    assert_eq!(b.iter().map(|(s, e)| e - s).sum::<usize>(), 1001);
    for w in b.windows(2) {
        assert_eq!(w[0].1, w[1].0);
    }
}

#[test]
fn index_column_named_like_a_data_column_is_refused() {
    let mut df = frame(2);
    df.columns[0] = "Id".to_string();
    let res = SqlWriter::new().with_table(Some("t".to_string())).finish(&df);
    match res {
        Err(LoadError::SchemaConflict(name)) => assert_eq!(name, "Id"),
        other => panic!("unexpected {other:?}"),
    }
    let labelled = SqlWriter::new().with_index_label(Some("a".to_string())).finish(&frame(1));
    assert!(matches!(labelled, Err(LoadError::SchemaConflict(n)) if n == "a"));
}

#[test]
fn index_column_is_prepended_as_auto_increment_key() {
    let session = SqlWriter::new().with_table(Some("t".to_string())).finish(&frame(1)).unwrap();
    assert_eq!(
        session.create_sql,
        "CREATE TABLE IF NOT EXISTS t (\n    Id INTEGER PRIMARY KEY AUTOINCREMENT NOT NULL,\n    a INTEGER,\n    b TEXT\n);"
    );
    assert_eq!(session.inserts, vec!["INSERT INTO t (a,b) VALUES (0,'r0')".to_string()]);
}

#[test]
fn explicit_schema_wins_for_shared_columns_only() {
    let explicit = {
        let mut s = SqliteSchema::new(
            "a",
            SqliteColOption::default().with_type_sql(SqliteDataType::INTEGER).with_primary_key(true),
        );
        s.with_column("zzz", SqliteColOption::default().with_type_sql(SqliteDataType::BLOB));
        s
    };
    let session = SqlWriter::new()
        .with_index(false)
        .with_schema(Some(explicit))
        .finish(&frame(0))
        .unwrap();
    assert_eq!(session.table, "test");
    assert_eq!(
        session.create_sql,
        "CREATE TABLE IF NOT EXISTS test (\n    a INTEGER PRIMARY KEY NOT NULL,\n    b TEXT\n);"
    );
    assert!(session.inserts.is_empty());
}

#[test]
fn batch_size_is_clamped_to_the_row_count() {
    let session = SqlWriter::new().with_index(false).with_batch_size(1000).finish(&frame(3)).unwrap();
    assert_eq!(session.batches, vec![(0, 3)]);
    let small = SqlWriter::new().with_index(false).with_batch_size(2).finish(&frame(5)).unwrap();
    assert_eq!(small.batches, vec![(0, 2), (2, 4), (4, 5)]);
    assert_eq!(small.inserts.len(), 3);
    assert_eq!(small.inserts[2], "INSERT INTO test (a,b) VALUES (4,'r4')");
}

#[test]
fn fail_policy_stops_before_any_row_when_the_table_exists() {
    let mut store = MemoryStore::new();
    store.tables.insert("t".to_string(), 7);
    let mut session = SqlWriter::new()
        .with_table(Some("t".to_string()))
        .with_index(false)
        .if_exists(IfExistsOption::Fail)
        .finish(&frame(4))
        .unwrap();
    let executed = drive(&mut session, &mut store);
    assert!(executed.is_empty());
    assert_eq!(store.tables["t"], 7);
    assert!(matches!(&session.stage, WriteStage::Failed(LoadError::TableExists(t)) if t == "t"));
    assert!(matches!(session.next_action(), StoreAction::Abort(LoadError::TableExists(_))));
}

#[test]
fn fail_policy_loads_into_a_new_table() {
    let mut store = MemoryStore::new();
    let mut session = SqlWriter::new()
        .with_table(Some("t".to_string()))
        .with_index(false)
        .with_batch_size(3)
        .finish(&frame(4))
        .unwrap();
    drive(&mut session, &mut store);
    assert!(matches!(session.stage, WriteStage::Done));
    assert_eq!(store.tables["t"], 4);
}

#[test]
fn replace_policy_leaves_exactly_the_new_rows() {
    let mut store = MemoryStore::new();
    store.tables.insert("t".to_string(), 50);
    let mut session = SqlWriter::new()
        .with_table(Some("t".to_string()))
        .with_index(false)
        .with_batch_size(2)
        .if_exists(IfExistsOption::Replace)
        .finish(&frame(5))
        .unwrap();
    let executed = drive(&mut session, &mut store);
    assert_eq!(executed[0], "DROP TABLE IF EXISTS t");
    assert!(executed[1].starts_with("CREATE TABLE IF NOT EXISTS t"));
    assert_eq!(executed.len(), 2 + 3);
    assert_eq!(store.tables["t"], 5);
}

#[test]
fn append_policy_adds_to_existing_rows() {
    let mut store = MemoryStore::new();
    store.tables.insert("t".to_string(), 2);
    let mut session = SqlWriter::new()
        .with_table(Some("t".to_string()))
        .with_index(false)
        .if_exists(IfExistsOption::Append)
        .finish(&frame(3))
        .unwrap();
    drive(&mut session, &mut store);
    assert_eq!(store.tables["t"], 5);
}

#[test]
fn tolerant_load_records_a_refused_batch_and_goes_on() {
    let mut store = MemoryStore::new();
    store.refuse_batch = Some(1);
    let mut session = SqlWriter::new()
        .with_index(false)
        .with_batch_size(2)
        .with_strict_insert(false)
        .finish(&frame(5))
        .unwrap();
    drive(&mut session, &mut store);
    assert!(matches!(session.stage, WriteStage::Done));
    assert_eq!(session.failures.len(), 1);
    assert_eq!((session.failures[0].batch, session.failures[0].start, session.failures[0].end), (1, 2, 4));
    assert_eq!(session.failures[0].message, "constraint failed");
    assert_eq!(store.tables["test"], 3);
}

#[test]
fn strict_load_stops_at_the_first_refused_batch() {
    let mut store = MemoryStore::new();
    store.refuse_batch = Some(0);
    let mut session = SqlWriter::new().with_index(false).with_batch_size(2).finish(&frame(5)).unwrap();
    drive(&mut session, &mut store);
    assert!(matches!(&session.stage, WriteStage::Failed(LoadError::StoreIO(m)) if m == "constraint failed"));
    assert!(session.failures.is_empty());
    assert_eq!(store.tables["test"], 0);
}

#[test]
fn store_failure_on_create_aborts() {
    let mut session = SqlWriter::new().with_index(false).if_exists(IfExistsOption::Append).finish(&frame(1)).unwrap();
    session.on_event(StoreEvent::ExecutionFailed("disk full".to_string()));
    assert!(session.is_finished());
    assert!(matches!(session.next_action(), StoreAction::Abort(LoadError::StoreIO(m)) if m == "disk full"));
}

#[test]
fn writer_defaults() {
    let w = SqlWriter::new();
    assert_eq!(w.batch_size(), 1024);
    assert_eq!(IfExistsOption::default(), IfExistsOption::Fail);
    let w = w.with_parallel(false).with_batch_size(7);
    assert_eq!(w.batch_size(), 7);
}
