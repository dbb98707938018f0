use db_cov19mx::schema::{ForeinKey, SqliteColOption, SqliteSchema};
use db_cov19mx::text::{decimal_text, push_signed_decimal};
use db_cov19mx::types::{SourceType, SqliteDataType};

fn field(name: &str, t: SourceType) -> (String, SourceType) {
    (name.to_string(), t)
}

#[test]
fn test_build_schema() {
    let fields = vec![
        field("name", SourceType::String),
        field("birthdate", SourceType::Date),
        field("weight", SourceType::Float64),
        field("height", SourceType::Float64),
    ];
    let qry = SqliteSchema::from_polars_schema(&fields).finish("test");
    assert_eq!(
        qry,
        "CREATE TABLE IF NOT EXISTS test (\n    name TEXT,\n    birthdate TEXT,\n    weight REAL,\n    height REAL\n);"
    );
}

#[test]
fn storage_types_follow_logical_types() {
    let cases = vec![
        (SourceType::Boolean, SqliteDataType::INTEGER),
        (SourceType::UInt8, SqliteDataType::INTEGER),
        (SourceType::UInt64, SqliteDataType::INTEGER),
        (SourceType::Int128, SqliteDataType::INTEGER),
        (SourceType::Float32, SqliteDataType::REAL),
        (SourceType::Float64, SqliteDataType::REAL),
        (SourceType::Decimal(Some(10), Some(2)), SqliteDataType::NUMERIC(Some(10), Some(2))),
        (SourceType::Binary, SqliteDataType::BLOB),
        (SourceType::BinaryOffset, SqliteDataType::BLOB),
        (SourceType::String, SqliteDataType::TEXT),
        (SourceType::Date, SqliteDataType::TEXT),
        (SourceType::Other, SqliteDataType::TEXT),
    ];
    for (src, want) in cases {
        assert_eq!(SqliteDataType::from_polar_type(&src), want);
    }
}

#[test]
fn storage_type_texts() {
    assert_eq!(SqliteDataType::INTEGER.to_sql(), "INTEGER");
    assert_eq!(SqliteDataType::BLOB.to_sql(), "BLOB");
    assert_eq!(SqliteDataType::NUMERIC(Some(10), Some(2)).to_sql(), "NUMERIC(10, 2)");
    assert_eq!(SqliteDataType::NUMERIC(Some(5), None).to_sql(), "NUMERIC(5)");
    assert_eq!(SqliteDataType::NUMERIC(None, Some(3)).to_sql(), "NUMERIC");
    assert_eq!(SqliteDataType::default(), SqliteDataType::TEXT);
}

#[test]
fn decimal_rendering() {
    assert_eq!(decimal_text(0), "0");
    assert_eq!(decimal_text(1234), "1234");
    assert_eq!(decimal_text(u64::MAX), "18446744073709551615");
    let mut out = String::from("x=");
    push_signed_decimal(&mut out, i64::MIN);
    assert_eq!(out, "x=-9223372036854775808");
}

#[test]
fn column_definition_order_of_constraints() {
    let opt = SqliteColOption::default()
        .with_type_sql(SqliteDataType::INTEGER)
        .with_unique(true)
        .with_auto_increment(true)
        .with_default(Some("0".to_string()))
        .with_nullable(false);
    assert_eq!(opt.build_col_def("N"), "N INTEGER UNIQUE AUTOINCREMENT DEFAULT 0 NOT NULL");
    let plain = SqliteColOption::default();
    assert_eq!(plain.build_col_def("T"), "T TEXT");
}

#[test]
fn primary_key_is_never_nullable_nor_defaulted() {
    let opt = SqliteColOption::default()
        .with_default(Some("'x'".to_string()))
        .with_nullable(true)
        .with_primary_key(true);
    assert!(opt.primary_key());
    assert!(!opt.nullable());
    assert!(opt.default_value().is_none());
    let later = opt.with_nullable(true).with_default(Some("1".to_string()));
    assert!(!later.nullable());
    assert!(later.default_value().is_none());
    assert_eq!(later.build_col_def("CLAVE"), "CLAVE TEXT PRIMARY KEY NOT NULL");
}

#[test]
fn foreign_keys_come_after_all_columns() {
    let mut schema = SqliteSchema::new(
        "CLAVE",
        SqliteColOption::default().with_type_sql(SqliteDataType::INTEGER).with_primary_key(true),
    );
    schema.with_column(
        "PAIS",
        SqliteColOption::default().with_type_sql(SqliteDataType::INTEGER).foreign_key("PAISES", "CLAVE"),
    );
    schema.with_column("NOMBRE", SqliteColOption::default());
    assert_eq!(
        schema.finish("T"),
        "CREATE TABLE IF NOT EXISTS T (\n    CLAVE INTEGER PRIMARY KEY NOT NULL,\n    PAIS INTEGER,\n    NOMBRE TEXT,\n    FOREIGN KEY (PAIS) REFERENCES PAISES(CLAVE)\n);"
    );
    let fk = ForeinKey::new("PAISES", "CLAVE");
    assert_eq!(fk.table, "PAISES");
    assert_eq!(fk.column, "CLAVE");
}

#[test]
fn overwriting_a_column_keeps_its_place() {
    let mut schema = SqliteSchema::new("A", SqliteColOption::default());
    schema.with_column("B", SqliteColOption::default());
    schema.with_column("A", SqliteColOption::default().with_type_sql(SqliteDataType::REAL));
    assert_eq!(schema.len(), 2);
    assert_eq!(schema.iter_columns(), vec!["A".to_string(), "B".to_string()]);
    assert_eq!(schema.position("B"), Some(1));
    assert_eq!(schema.position("C"), None);
    assert_eq!(schema.iter_types()[0].type_sql(), SqliteDataType::REAL);
    assert_eq!(schema.finish("t"), "CREATE TABLE IF NOT EXISTS t (\n    A REAL,\n    B TEXT\n);");
}

#[test]
fn merging_schemas_overrides_and_appends() {
    let left = SqliteSchema::from_polars_schema(&vec![
        field("x", SourceType::Int32),
        field("y", SourceType::String),
    ]);
    let right = SqliteSchema::from_polars_schema(&vec![
        field("z", SourceType::Boolean),
        field("x", SourceType::Float64),
    ]);
    let merged = left.add_schema(&right);
    let fields = merged.iter_fields();
    let names: Vec<&str> = fields.iter().map(|(n, _)| n.as_str()).collect();
    assert_eq!(names, vec!["x", "y", "z"]);
    assert_eq!(fields[0].1.type_sql(), SqliteDataType::REAL);
    assert_eq!(fields[2].1.type_sql(), SqliteDataType::INTEGER);
}

#[test]
fn repeated_field_names_keep_first_place_and_last_type() {
    let schema = SqliteSchema::from_polars_schema(&vec![
        field("a", SourceType::String),
        field("b", SourceType::String),
        field("a", SourceType::Int64),
    ]);
    assert_eq!(schema.finish("r"), "CREATE TABLE IF NOT EXISTS r (\n    a INTEGER,\n    b TEXT\n);");
}

#[test]
fn rendering_is_stable() {
    let build = || {
        let mut s = SqliteSchema::new("k", SqliteColOption::default().with_primary_key(true));
        s.with_column("v", SqliteColOption::default().with_default(Some("'a'".to_string())));
        s
    };
    let first = build().finish("t");
    let second = build().finish("t");
    assert_eq!(first, second);
    assert_eq!(first, "CREATE TABLE IF NOT EXISTS t (\n    k TEXT PRIMARY KEY NOT NULL,\n    v TEXT DEFAULT 'a'\n);");
}
