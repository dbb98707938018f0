//! Logical types of the parsed sources and the storage types of the store,
//! with the total mapping from the former to the latter.
use crate::text::{decimal, push_decimal, push_text};
use vstd::prelude::*;

verus! {

/// Column type of the relational store.
#[derive(Debug, Clone, Copy, PartialEq, Eq, Structural)]
#[allow(non_camel_case_types, clippy::upper_case_acronyms)]
pub enum SqliteDataType {
    INTEGER,
    TEXT,
    REAL,
    BLOB,
    /// Optional precision and scale.
    NUMERIC(Option<usize>, Option<usize>),
}

impl Default for SqliteDataType {
    fn default() -> (r: Self)
        ensures
            r == SqliteDataType::TEXT,
    {
        SqliteDataType::TEXT
    }
}

/// Logical type of a column of a parsed source (spreadsheet or delimited
/// file), as far as the storage mapping tells types apart.
#[derive(Debug, Clone, Copy, PartialEq, Eq, Structural)]
pub enum SourceType {
    Boolean,
    UInt8,
    UInt16,
    UInt32,
    UInt64,
    Int8,
    Int16,
    Int32,
    Int64,
    Int128,
    Float32,
    Float64,
    /// Optional precision and scale.
    Decimal(Option<usize>, Option<usize>),
    Binary,
    BinaryOffset,
    String,
    Date,
    Datetime,
    Null,
    /// Any other logical type.
    Other,
}

/// Storage type chosen for a logical type: booleans and integers are
/// `INTEGER`, floats `REAL`, decimals `NUMERIC`, binaries `BLOB`, the rest
/// `TEXT`.
pub open spec fn storage_type_of(t: SourceType) -> SqliteDataType {
    match t {
        SourceType::Boolean | SourceType::UInt8 | SourceType::UInt16 | SourceType::UInt32
        | SourceType::UInt64 | SourceType::Int8 | SourceType::Int16 | SourceType::Int32
        | SourceType::Int64 | SourceType::Int128 => SqliteDataType::INTEGER,
        SourceType::Float32 | SourceType::Float64 => SqliteDataType::REAL,
        SourceType::Decimal(p, s) => SqliteDataType::NUMERIC(p, s),
        SourceType::Binary | SourceType::BinaryOffset => SqliteDataType::BLOB,
        _ => SqliteDataType::TEXT,
    }
}

/// Text of a storage type in a column definition.
pub open spec fn sql_type_text(t: SqliteDataType) -> Seq<char> {
    match t {
        SqliteDataType::INTEGER => "INTEGER"@,
        SqliteDataType::TEXT => "TEXT"@,
        SqliteDataType::REAL => "REAL"@,
        SqliteDataType::BLOB => "BLOB"@,
        SqliteDataType::NUMERIC(p, s) => match (p, s) {
            (Some(p), Some(s)) => "NUMERIC("@ + decimal(p as nat) + ", "@ + decimal(s as nat)
                + ")"@,
            (Some(p), None) => "NUMERIC("@ + decimal(p as nat) + ")"@,
            _ => "NUMERIC"@,
        },
    }
}

impl SqliteDataType {
    /// Storage type for a logical source type; total, unknown types are `TEXT`.
    pub fn from_polar_type(data_type: &SourceType) -> (r: Self)
        ensures
            r == storage_type_of(*data_type),
    {
        match data_type {
            SourceType::Boolean => SqliteDataType::INTEGER,
            SourceType::UInt8 => SqliteDataType::INTEGER,
            SourceType::UInt16 => SqliteDataType::INTEGER,
            SourceType::UInt32 => SqliteDataType::INTEGER,
            SourceType::UInt64 => SqliteDataType::INTEGER,
            SourceType::Int8 => SqliteDataType::INTEGER,
            SourceType::Int16 => SqliteDataType::INTEGER,
            SourceType::Int32 => SqliteDataType::INTEGER,
            SourceType::Int64 => SqliteDataType::INTEGER,
            SourceType::Int128 => SqliteDataType::INTEGER,
            SourceType::Float32 => SqliteDataType::REAL,
            SourceType::Float64 => SqliteDataType::REAL,
            SourceType::Decimal(p, s) => SqliteDataType::NUMERIC(*p, *s),
            SourceType::Binary => SqliteDataType::BLOB,
            SourceType::BinaryOffset => SqliteDataType::BLOB,
            _ => SqliteDataType::TEXT,
        }
    }

    /// Appends the type's text as it stands in a column definition.
    pub fn push_sql(&self, out: &mut String)
        ensures
            final(out)@ == old(out)@ + sql_type_text(*self),
    {
        let ghost start = out@;
        match self {
            SqliteDataType::INTEGER => push_text(out, "INTEGER"),
            SqliteDataType::TEXT => push_text(out, "TEXT"),
            SqliteDataType::REAL => push_text(out, "REAL"),
            SqliteDataType::BLOB => push_text(out, "BLOB"),
            SqliteDataType::NUMERIC(p, s) => match (p, s) {
                (Some(p), Some(s)) => {
                    push_text(out, "NUMERIC(");
                    push_decimal(out, *p as u64);
                    push_text(out, ", ");
                    push_decimal(out, *s as u64);
                    push_text(out, ")");
                    assert(out@ =~= start + sql_type_text(*self));
                },
                (Some(p), None) => {
                    push_text(out, "NUMERIC(");
                    push_decimal(out, *p as u64);
                    push_text(out, ")");
                    assert(out@ =~= start + sql_type_text(*self));
                },
                _ => push_text(out, "NUMERIC"),
            },
        }
    }

    /// The type's text as it stands in a column definition.
    pub fn to_sql(&self) -> (r: String)
        ensures
            r@ == sql_type_text(*self),
    {
        let mut out = String::new();
        self.push_sql(&mut out);
        assert(out@ =~= sql_type_text(*self));
        out
    }
}

} // verus!
